//! Fenced code blocks in Markdown.
//!
//! A line holding three backticks opens a block (the text after them, trimmed, names its
//! language) or closes the open one.  A closed block without a language becomes an
//! escaped `<pre><code>` element; one with a language is handed to a highlighter.  Lines
//! outside blocks pass through.  A block still open at the end is dropped.

use vstd::prelude::*;
use crate::text::{chars_of, contains_pat, find, find_first, lemma_find_from, lines, occurs_at, lines_of, push_all, string_of, trim, trim_ws, views};
use crate::html::{escaped, escape_chars};

verus! {

/// A piece of the processed Markdown.
pub enum Piece {
    /// Text that goes to the output as it is.
    Text(String),
    /// A closed block with a language: its highlighted form goes to the output.
    Highlight { language: String, code: String },
}

/// The model of a piece.
pub enum PieceView {
    Text(Seq<char>),
    Highlight(Seq<char>, Seq<char>),
}

impl View for Piece {
    type V = PieceView;

    open spec fn view(&self) -> PieceView {
        match self {
            Piece::Text(t) => PieceView::Text(t@),
            Piece::Highlight { language, code } => PieceView::Highlight(language@, code@),
        }
    }
}

/// The models of a sequence of pieces.
pub open spec fn piece_views(v: Seq<Piece>) -> Seq<PieceView> {
    v.map_values(|p: Piece| p@)
}

/// The marker that opens and closes a code block.
pub open spec fn fence() -> Seq<char> {
    "```"@
}

/// What a closed block becomes.
pub open spec fn closed_block(language: Seq<char>, code: Seq<char>) -> PieceView {
    if language.len() == 0 {
        PieceView::Text("<pre><code>"@ + escaped(code) + "</code></pre>\n"@)
    } else {
        PieceView::Highlight(language, code)
    }
}

/// The state of the scan over the lines.
pub struct ScanState {
    pub pieces: Seq<PieceView>,
    pub in_block: bool,
    pub language: Seq<char>,
    pub code: Seq<char>,
}

/// The state before any line.
pub open spec fn scan_start() -> ScanState {
    ScanState { pieces: seq![], in_block: false, language: seq![], code: seq![] }
}

/// The state after one more line.
pub open spec fn scan_line(st: ScanState, line: Seq<char>) -> ScanState {
    match find_first(line, fence()) {
        Some(f) => if st.in_block {
            ScanState {
                pieces: st.pieces.push(closed_block(st.language, st.code)),
                in_block: false,
                language: st.language,
                code: seq![],
            }
        } else {
            ScanState {
                pieces: st.pieces,
                in_block: true,
                language: trim_ws(line.skip(f + fence().len())),
                code: st.code,
            }
        },
        None => if st.in_block {
            ScanState {
                pieces: st.pieces,
                in_block: true,
                language: st.language,
                code: st.code + line.push('\n'),
            }
        } else {
            ScanState {
                pieces: st.pieces.push(PieceView::Text(line.push('\n'))),
                in_block: false,
                language: st.language,
                code: st.code,
            }
        },
    }
}

/// The state after the given lines.
pub open spec fn scan_lines(lines: Seq<Seq<char>>) -> ScanState
    decreases lines.len(),
{
    if lines.len() == 0 {
        scan_start()
    } else {
        scan_line(scan_lines(lines.drop_last()), lines.last())
    }
}

/// The pieces of `markdown`.
pub open spec fn code_pieces(markdown: Seq<char>) -> Seq<PieceView> {
    scan_lines(lines_of(markdown)).pieces
}

/// How many pieces need highlighting.
pub open spec fn highlight_count(pieces: Seq<PieceView>) -> nat
    decreases pieces.len(),
{
    if pieces.len() == 0 {
        0
    } else {
        highlight_count(pieces.drop_first()) + if pieces[0] is Highlight {
            1nat
        } else {
            0nat
        }
    }
}

/// The output: each text piece as it is, and in place of each piece to highlight the next
/// of `highlighted`.
pub open spec fn assembled(pieces: Seq<PieceView>, highlighted: Seq<Seq<char>>) -> Seq<char>
    decreases pieces.len(),
{
    if pieces.len() == 0 {
        seq![]
    } else {
        match pieces[0] {
            PieceView::Text(t) => t + assembled(pieces.drop_first(), highlighted),
            PieceView::Highlight(_, _) => highlighted[0] + assembled(
                pieces.drop_first(),
                highlighted.drop_first(),
            ),
        }
    }
}

/// Splits `markdown` into text and code blocks to highlight.
pub fn split_code_blocks(markdown: &str) -> (pieces: Vec<Piece>)
    ensures
        piece_views(pieces@) == code_pieces(markdown@),
{
    let chars = chars_of(markdown);
    let all_lines = lines(chars.as_slice());
    let fence_chars = chars_of("```");
    let pre_open = chars_of("<pre><code>");
    let pre_close = chars_of("</code></pre>\n");
    let ghost ls = views(all_lines@);
    let mut pieces: Vec<Piece> = Vec::new();
    let mut in_block = false;
    let mut language: Vec<char> = Vec::new();
    let mut code: Vec<char> = Vec::new();
    let mut i: usize = 0;
    while i < all_lines.len()
        invariant
            i <= all_lines.len(),
            ls == views(all_lines@),
            ls == lines_of(chars@),
            chars@ == markdown@,
            fence_chars@ == fence(),
            pre_open@ == "<pre><code>"@,
            pre_close@ == "</code></pre>\n"@,
            ({
                let st = scan_lines(ls.take(i as int));
                &&& piece_views(pieces@) == st.pieces
                &&& in_block == st.in_block
                &&& language@ == st.language
                &&& code@ == st.code
            }),
        decreases all_lines.len() - i,
    {
        assert(ls.take(i + 1).drop_last() == ls.take(i as int));
        assert(ls.take(i + 1).last() == all_lines@[i as int]@);
        let line = all_lines[i].as_slice();
        let ghost before = piece_views(pieces@);
        match find(line, fence_chars.as_slice(), 0) {
            Some(f) => {
                proof {
                    lemma_find_from(line@, fence(), 0);
                    assert(occurs_at(line@, fence(), f as int));
                    assert(fence_chars@.len() == fence().len());
                    assert(f + fence_chars.len() <= line.len());
                }
                if in_block {
                    if language.len() == 0 {
                        let mut t: Vec<char> = Vec::new();
                        push_all(&mut t, pre_open.as_slice());
                        let esc = escape_chars(code.as_slice());
                        push_all(&mut t, esc.as_slice());
                        push_all(&mut t, pre_close.as_slice());
                        pieces.push(Piece::Text(string_of(&t)));
                    } else {
                        pieces.push(
                            Piece::Highlight { language: string_of(&language), code: string_of(&code) },
                        );
                    }
                    assert(piece_views(pieces@) == before.push(closed_block(language@, code@)));
                    code = Vec::new();
                } else {
                    let after = &line[f + fence_chars.len()..line.len()];
                    language = trim(after);
                }
                in_block = !in_block;
            },
            None => {
                if in_block {
                    push_all(&mut code, line);
                    code.push('\n');
                } else {
                    let mut t: Vec<char> = Vec::new();
                    push_all(&mut t, line);
                    t.push('\n');
                    pieces.push(Piece::Text(string_of(&t)));
                    assert(piece_views(pieces@) == before.push(PieceView::Text(line@.push('\n'))));
                }
            },
        }
        i = i + 1;
    }
    assert(ls.take(all_lines.len() as int) == ls);
    pieces
}

/// Puts the text pieces and the highlighted blocks together, in order.
pub fn assemble_code_blocks(pieces: &Vec<Piece>, highlighted: &Vec<String>) -> (out: String)
    requires
        highlighted.len() == highlight_count(piece_views(pieces@)),
    ensures
        out@ == assembled(piece_views(pieces@), highlighted@.map_values(|h: String| h@)),
{
    let ghost ps = piece_views(pieces@);
    let ghost hs = highlighted@.map_values(|h: String| h@);
    let mut out = String::new();
    let mut i: usize = 0;
    let mut h: usize = 0;
    assert(ps.skip(0) == ps);
    assert(hs.skip(0) == hs);
    while i < pieces.len()
        invariant
            i <= pieces.len(),
            ps == piece_views(pieces@),
            hs == highlighted@.map_values(|h: String| h@),
            h + highlight_count(ps.skip(i as int)) == highlighted.len(),
            out@ + assembled(ps.skip(i as int), hs.skip(h as int)) == assembled(ps, hs),
        decreases pieces.len() - i,
    {
        assert(ps.skip(i as int).drop_first() == ps.skip(i + 1));
        assert(ps.skip(i as int)[0] == pieces@[i as int]@);
        match &pieces[i] {
            Piece::Text(t) => {
                out.append(t.as_str());
            },
            Piece::Highlight { .. } => {
                assert(hs.skip(h as int).drop_first() == hs.skip(h + 1));
                out.append(highlighted[h].as_str());
                h = h + 1;
            },
        }
        i = i + 1;
    }
    assert(ps.skip(pieces.len() as int) == Seq::<PieceView>::empty());
    out
}


/// Each line as a text piece, ended by a newline.
pub open spec fn plain_pieces(ls: Seq<Seq<char>>) -> Seq<PieceView> {
    ls.map_values(|l: Seq<char>| PieceView::Text(l.push('\n')))
}

proof fn lemma_scan_plain(ls: Seq<Seq<char>>)
    requires
        forall|i: int| 0 <= i < ls.len() ==> !contains_pat(#[trigger] ls[i], fence()),
    ensures
        scan_lines(ls).pieces == plain_pieces(ls),
        !scan_lines(ls).in_block,
    decreases ls.len(),
{
    if ls.len() > 0 {
        let init = ls.drop_last();
        assert forall|i: int| 0 <= i < init.len() implies !contains_pat(#[trigger] init[i], fence()) by {
            assert(init[i] == ls[i]);
        }
        lemma_scan_plain(init);
        assert(!contains_pat(ls[ls.len() - 1], fence()));
        assert(plain_pieces(ls) == plain_pieces(init).push(PieceView::Text(ls.last().push('\n'))));
    }
}

proof fn lemma_plain_count(ls: Seq<Seq<char>>)
    ensures
        highlight_count(plain_pieces(ls)) == 0,
    decreases ls.len(),
{
    if ls.len() > 0 {
        assert(plain_pieces(ls).drop_first() == plain_pieces(ls.drop_first()));
        lemma_plain_count(ls.drop_first());
    }
}

/// Markdown none of whose lines holds a code fence passes through line by line: each line
/// becomes a text piece ended by a newline, and nothing is handed to the highlighter.
pub proof fn lemma_plain_markdown(markdown: Seq<char>)
    requires
        forall|i: int|
            0 <= i < lines_of(markdown).len() ==> !contains_pat(#[trigger] lines_of(markdown)[i], fence()),
    ensures
        code_pieces(markdown) == plain_pieces(lines_of(markdown)),
        highlight_count(code_pieces(markdown)) == 0,
{
    lemma_scan_plain(lines_of(markdown));
    lemma_plain_count(lines_of(markdown));
}

/// Lines one after another, each followed by a newline.
pub open spec fn newline_ended(ls: Seq<Seq<char>>) -> Seq<char>
    decreases ls.len(),
{
    if ls.len() == 0 {
        seq![]
    } else {
        newline_ended(ls.drop_last()) + ls.last().push('\n')
    }
}

/// The language named by a line that opens a block: what follows its first fence, trimmed.
pub open spec fn fence_language(line: Seq<char>) -> Seq<char> {
    trim_ws(line.skip(find_first(line, fence()).unwrap() + 3))
}

/// Outside a block no code is held.
proof fn lemma_scan_no_code_outside(ls: Seq<Seq<char>>)
    ensures
        !scan_lines(ls).in_block ==> scan_lines(ls).code == Seq::<char>::empty(),
    decreases ls.len(),
{
    if ls.len() > 0 {
        lemma_scan_no_code_outside(ls.drop_last());
    }
}

/// Scanning `a + b` where `a` ends outside a block: `b` is scanned as if alone, its pieces
/// following those of `a`.
proof fn lemma_scan_after(a: Seq<Seq<char>>, b: Seq<Seq<char>>)
    requires
        !scan_lines(a).in_block,
    ensures
        scan_lines(a + b).pieces == scan_lines(a).pieces + scan_lines(b).pieces,
        scan_lines(a + b).in_block == scan_lines(b).in_block,
        scan_lines(a + b).code == scan_lines(b).code,
        scan_lines(b).in_block ==> scan_lines(a + b).language == scan_lines(b).language,
    decreases b.len(),
{
    lemma_scan_no_code_outside(a);
    if b.len() == 0 {
        assert(a + b == a);
    } else {
        lemma_scan_after(a, b.drop_last());
        assert((a + b).drop_last() == a + b.drop_last());
        assert((a + b).last() == b.last());
        lemma_scan_no_code_outside(b.drop_last());
        lemma_scan_no_code_outside(a + b.drop_last());
        let x = scan_lines(a + b.drop_last());
        let y = scan_lines(b.drop_last());
        match find_first(b.last(), fence()) {
            Some(f) => {
                if y.in_block {
                    assert(x.pieces.push(closed_block(x.language, x.code)) == scan_lines(a).pieces
                        + y.pieces.push(closed_block(y.language, y.code)));
                }
            },
            None => {
                if !y.in_block {
                    assert(x.pieces.push(PieceView::Text(b.last().push('\n'))) == scan_lines(
                        a,
                    ).pieces + y.pieces.push(PieceView::Text(b.last().push('\n'))));
                }
            },
        }
    }
}

/// Blocks do not reach into one another: where the lines `a` leave no block open, the
/// pieces of `a` followed by the lines `b` are the pieces of `a` followed by the pieces `b`
/// gives alone.  In particular a block's code holds nothing of an earlier block.
pub proof fn lemma_pieces_of_concatenation(a: Seq<Seq<char>>, b: Seq<Seq<char>>)
    requires
        !scan_lines(a).in_block,
    ensures
        scan_lines(a + b).pieces == scan_lines(a).pieces + scan_lines(b).pieces,
        scan_lines(a + b).in_block == scan_lines(b).in_block,
{
    lemma_scan_after(a, b);
}

/// After an opening line and lines without a fence, a block is open, named by the opening
/// line, holding those lines each followed by a newline, and nothing has been given out
/// for it: a block left open at the end gives no piece.
pub proof fn lemma_scan_open_block(open: Seq<char>, body: Seq<Seq<char>>)
    requires
        contains_pat(open, fence()),
        forall|i: int| 0 <= i < body.len() ==> !contains_pat(#[trigger] body[i], fence()),
    ensures
        scan_lines(seq![open] + body).pieces == Seq::<PieceView>::empty(),
        scan_lines(seq![open] + body).in_block,
        scan_lines(seq![open] + body).language == fence_language(open),
        scan_lines(seq![open] + body).code == newline_ended(body),
    decreases body.len(),
{
    if body.len() == 0 {
        assert(seq![open] + body == seq![open]);
        assert(seq![open].drop_last() == Seq::<Seq<char>>::empty());
        assert(seq![open].last() == open);
        assert(scan_lines(seq![open].drop_last()) == scan_start());
        assert(find_first(open, fence()) is Some);
        reveal_strlit("```");
        assert(fence().len() == 3);
    } else {
        let init = body.drop_last();
        assert forall|i: int| 0 <= i < init.len() implies !contains_pat(#[trigger] init[i], fence()) by {
            assert(init[i] == body[i]);
        }
        lemma_scan_open_block(open, init);
        assert((seq![open] + body).drop_last() == seq![open] + init);
        assert((seq![open] + body).last() == body.last());
        assert(!contains_pat(body[body.len() - 1], fence()));
    }
}

/// A closed block on its own: an opening line, lines without a fence, and a closing line
/// give one piece.  Without a language it is the escaped code in `<pre><code>`; with one
/// it is handed to the highlighter with that language.  Either way the code is exactly the
/// lines between the two fences, each followed by a newline.
pub proof fn lemma_closed_block(open: Seq<char>, body: Seq<Seq<char>>, close: Seq<char>)
    requires
        contains_pat(open, fence()),
        contains_pat(close, fence()),
        forall|i: int| 0 <= i < body.len() ==> !contains_pat(#[trigger] body[i], fence()),
    ensures
        scan_lines(seq![open] + body + seq![close]).pieces == seq![
            if fence_language(open).len() == 0 {
                PieceView::Text("<pre><code>"@ + escaped(newline_ended(body)) + "</code></pre>\n"@)
            } else {
                PieceView::Highlight(fence_language(open), newline_ended(body))
            },
        ],
        !scan_lines(seq![open] + body + seq![close]).in_block,
{
    lemma_scan_open_block(open, body);
    let all = seq![open] + body + seq![close];
    assert(all.drop_last() == seq![open] + body);
    assert(all.last() == close);
    assert(Seq::<PieceView>::empty().push(closed_block(fence_language(open), newline_ended(body)))
        == seq![closed_block(fence_language(open), newline_ended(body))]);
}

/// Reassembling pieces one after the other: the pieces `a` take the first
/// `highlight_count(a)` highlighted blocks, in order, and the pieces `b` the rest.
pub proof fn lemma_assembled_concat(
    a: Seq<PieceView>,
    b: Seq<PieceView>,
    ha: Seq<Seq<char>>,
    hb: Seq<Seq<char>>,
)
    requires
        ha.len() == highlight_count(a),
    ensures
        assembled(a + b, ha + hb) == assembled(a, ha) + assembled(b, hb),
    decreases a.len(),
{
    if a.len() == 0 {
        assert(a + b == b);
        assert(ha + hb == hb);
    } else {
        assert((a + b).drop_first() == a.drop_first() + b);
        assert((a + b)[0] == a[0]);
        match a[0] {
            PieceView::Text(t) => {
                lemma_assembled_concat(a.drop_first(), b, ha, hb);
                assert(t + (assembled(a.drop_first(), ha) + assembled(b, hb)) == t + assembled(
                    a.drop_first(),
                    ha,
                ) + assembled(b, hb));
            },
            PieceView::Highlight(_, _) => {
                assert((ha + hb).drop_first() == ha.drop_first() + hb);
                assert((ha + hb)[0] == ha[0]);
                lemma_assembled_concat(a.drop_first(), b, ha.drop_first(), hb);
                assert(ha[0] + (assembled(a.drop_first(), ha.drop_first()) + assembled(b, hb))
                    == ha[0] + assembled(a.drop_first(), ha.drop_first()) + assembled(b, hb));
            },
        }
    }
}

/// A text piece is reassembled as it is, and a piece to highlight as the highlighted block
/// handed for it.
pub proof fn lemma_assembled_single(p: PieceView, h: Seq<char>)
    ensures
        assembled(seq![p], seq![h]) == match p {
            PieceView::Text(t) => t,
            PieceView::Highlight(_, _) => h,
        },
{
    assert(seq![p][0] == p);
    assert(seq![p].drop_first() == Seq::<PieceView>::empty());
    assert(seq![h].drop_first() == Seq::<Seq<char>>::empty());
    assert(seq![h][0] == h);
    assert(assembled(Seq::<PieceView>::empty(), seq![h]) == Seq::<char>::empty());
    assert(assembled(Seq::<PieceView>::empty(), Seq::<Seq<char>>::empty()) == Seq::<char>::empty());
    match p {
        PieceView::Text(t) => {
            assert(t + Seq::<char>::empty() == t);
        },
        PieceView::Highlight(_, _) => {
            assert(h + Seq::<char>::empty() == h);
        },
    }
}

} // verus!
