//! Character-level text operations used throughout the generator.
//!
//! Every string is modelled by its sequence of `char`s.  Byte offsets of the
//! standard library coincide with character boundaries for the patterns used
//! here, so stating the operations over characters loses nothing.

use vstd::prelude::*;

verus! {

broadcast use vstd::string::group_string_axioms;

/// Appends one character to a `String` (`String::push`).
#[verifier::external_body]
pub(crate) fn push_char(s: &mut String, c: char)
    ensures
        final(s)@ == old(s)@.push(c),
{
    s.push(c);
}

/// The characters of a string slice, in order.
pub fn chars_of(s: &str) -> (v: Vec<char>)
    ensures
        v@ == s@,
{
    let mut v: Vec<char> = Vec::new();
    for c in it: s.chars()
        invariant
            v@ == it.seq().take(it.index() as int),
            it.seq() == s@,
    {
        v.push(c);
    }
    v
}

/// A string holding exactly the given characters.
pub fn string_of(v: &Vec<char>) -> (s: String)
    ensures
        s@ == v@,
{
    let mut s = String::new();
    let mut i: usize = 0;
    while i < v.len()
        invariant
            i <= v.len(),
            s@ == v@.take(i as int),
        decreases v.len() - i,
    {
        push_char(&mut s, v[i]);
        assert(v@.take(i + 1) == v@.take(i as int).push(v@[i as int]));
        i = i + 1;
    }
    assert(v@.take(v.len() as int) == v@);
    s
}


/// `p` occurs in `s` starting at index `i`.
pub open spec fn occurs_at(s: Seq<char>, p: Seq<char>, i: int) -> bool {
    &&& 0 <= i
    &&& i + p.len() <= s.len()
    &&& s.subrange(i, i + p.len()) == p
}

/// The first index at or after `from` where `p` occurs in `s` (`str::find` for `from == 0`).
pub open spec fn find_from(s: Seq<char>, p: Seq<char>, from: int) -> Option<int>
    decreases s.len() - from,
{
    if from < 0 || from + p.len() > s.len() {
        None
    } else if occurs_at(s, p, from) {
        Some(from)
    } else if from >= s.len() {
        None
    } else {
        find_from(s, p, from + 1)
    }
}

/// The first index where `p` occurs in `s`.
pub open spec fn find_first(s: Seq<char>, p: Seq<char>) -> Option<int> {
    find_from(s, p, 0)
}

/// `p` occurs somewhere in `s` (`str::contains`).
pub open spec fn contains_pat(s: Seq<char>, p: Seq<char>) -> bool {
    find_first(s, p) is Some
}

/// What `find_from` returns: the least occurrence at or after `from`, if any.
pub proof fn lemma_find_from(s: Seq<char>, p: Seq<char>, from: int)
    requires
        0 <= from,
    ensures
        match find_from(s, p, from) {
            Some(k) => {
                &&& from <= k
                &&& occurs_at(s, p, k)
                &&& forall|j: int| from <= j < k ==> !occurs_at(s, p, j)
            },
            None => forall|j: int| from <= j ==> !occurs_at(s, p, j),
        },
    decreases s.len() - from,
{
    if from + p.len() > s.len() {
    } else if occurs_at(s, p, from) {
    } else if from >= s.len() {
        assert(s.subrange(from, from + p.len()) =~= p);
    } else {
        lemma_find_from(s, p, from + 1);
    }
}

/// Appends all characters of `s` to `out`.
pub fn push_all(out: &mut Vec<char>, s: &[char])
    ensures
        final(out)@ == old(out)@ + s@,
{
    let ghost start = out@;
    let mut i: usize = 0;
    while i < s.len()
        invariant
            i <= s.len(),
            out@ == start + s@.take(i as int),
        decreases s.len() - i,
    {
        out.push(s[i]);
        assert(s@.take(i + 1) == s@.take(i as int).push(s@[i as int]));
        i = i + 1;
    }
    assert(s@.take(s.len() as int) == s@);
}

/// Whether `p` occurs in `s` at index `i`.
pub fn matches_at(s: &[char], p: &[char], i: usize) -> (b: bool)
    ensures
        b == occurs_at(s@, p@, i as int),
{
    if i > s.len() || p.len() > s.len() - i {
        return false;
    }
    let mut j: usize = 0;
    while j < p.len()
        invariant
            i + p.len() <= s.len(),
            j <= p.len(),
            forall|k: int| 0 <= k < j ==> s@[i + k] == p@[k],
        decreases p.len() - j,
    {
        if s[i + j] != p[j] {
            assert(s@.subrange(i as int, i + p.len())[j as int] != p@[j as int]);
            return false;
        }
        j = j + 1;
    }
    assert(s@.subrange(i as int, i + p.len()) == p@);
    true
}

/// The first occurrence of `p` in `s` at or after `from` (`str::find` on the tail).
pub fn find(s: &[char], p: &[char], from: usize) -> (r: Option<usize>)
    ensures
        match r {
            Some(k) => find_from(s@, p@, from as int) == Some(k as int),
            None => find_from(s@, p@, from as int) is None,
        },
{
    let mut i = from;
    if i > s.len() || p.len() > s.len() - i {
        return None;
    }
    while i <= s.len() - p.len()
        invariant
            from <= i,
            p.len() <= s.len(),
            i <= s.len(),
            find_from(s@, p@, from as int) == find_from(s@, p@, i as int),
        decreases s.len() - i,
    {
        if matches_at(s, p, i) {
            return Some(i);
        }
        if i == s.len() {
            return None;
        }
        i = i + 1;
    }
    None
}


/// `s` from index `i` on, with every occurrence of `p` replaced by `r`, scanning left to
/// right and never overlapping (`str::replace`).  An empty `p` replaces nothing.
pub open spec fn replace_from(s: Seq<char>, p: Seq<char>, r: Seq<char>, i: int) -> Seq<char>
    decreases s.len() - i,
{
    if i < 0 || i > s.len() {
        seq![]
    } else if p.len() == 0 || i + p.len() > s.len() {
        s.skip(i)
    } else if occurs_at(s, p, i) {
        r + replace_from(s, p, r, i + p.len())
    } else {
        seq![s[i]] + replace_from(s, p, r, i + 1)
    }
}

/// `s` with every occurrence of `p` replaced by `r` (`str::replace`).
pub open spec fn replace_all(s: Seq<char>, p: Seq<char>, r: Seq<char>) -> Seq<char> {
    replace_from(s, p, r, 0)
}

/// Like `replace_from`, but replacing at most `n` occurrences (`str::replacen`).
pub open spec fn replacen_from(s: Seq<char>, p: Seq<char>, r: Seq<char>, n: nat, i: int) -> Seq<char>
    decreases s.len() - i,
{
    if i < 0 || i > s.len() {
        seq![]
    } else if n == 0 || p.len() == 0 || i + p.len() > s.len() {
        s.skip(i)
    } else if occurs_at(s, p, i) {
        r + replacen_from(s, p, r, (n - 1) as nat, i + p.len())
    } else {
        seq![s[i]] + replacen_from(s, p, r, n, i + 1)
    }
}

/// `s` with its first `n` occurrences of `p` replaced by `r` (`str::replacen`).
pub open spec fn replacen(s: Seq<char>, p: Seq<char>, r: Seq<char>, n: nat) -> Seq<char> {
    replacen_from(s, p, r, n, 0)
}

/// `s` with every character that is in `set` replaced by `r` (`str::replace` with a
/// character or an array of characters as the pattern).
pub open spec fn replace_chars(s: Seq<char>, set: Seq<char>, r: Seq<char>) -> Seq<char>
    decreases s.len(),
{
    if s.len() == 0 {
        seq![]
    } else {
        replace_chars(s.drop_last(), set, r) + if set.contains(s.last()) {
            r
        } else {
            seq![s.last()]
        }
    }
}

/// Appends `s[from..to]` to `out`.
pub fn push_range(out: &mut Vec<char>, s: &[char], from: usize, to: usize)
    requires
        from <= to <= s.len(),
    ensures
        final(out)@ == old(out)@ + s@.subrange(from as int, to as int),
{
    push_all(out, &s[from..to]);
}

/// `s` with every occurrence of the non-empty pattern `p` replaced by `r`.
pub fn replace(s: &[char], p: &[char], r: &[char]) -> (out: Vec<char>)
    requires
        p.len() > 0,
    ensures
        out@ == replace_all(s@, p@, r@),
{
    let mut out: Vec<char> = Vec::new();
    let mut i: usize = 0;
    if p.len() <= s.len() {
        while i <= s.len() - p.len()
            invariant
                p.len() > 0,
                p.len() <= s.len(),
                i <= s.len(),
                out@ + replace_from(s@, p@, r@, i as int) == replace_all(s@, p@, r@),
            decreases s.len() - i,
        {
            let ghost before = out@;
            if matches_at(s, p, i) {
                push_all(&mut out, r);
                assert(out@ + replace_from(s@, p@, r@, i + p.len()) == before + replace_from(
                    s@,
                    p@,
                    r@,
                    i as int,
                ));
                i = i + p.len();
            } else {
                out.push(s[i]);
                assert(out@ + replace_from(s@, p@, r@, i + 1) == before + replace_from(
                    s@,
                    p@,
                    r@,
                    i as int,
                ));
                i = i + 1;
            }
        }
    }
    push_range(&mut out, s, i, s.len());
    out
}

/// `s` with its first `n` occurrences of the non-empty pattern `p` replaced by `r`.
pub fn replace_n(s: &[char], p: &[char], r: &[char], n: usize) -> (out: Vec<char>)
    requires
        p.len() > 0,
    ensures
        out@ == replacen(s@, p@, r@, n as nat),
{
    let mut out: Vec<char> = Vec::new();
    let mut i: usize = 0;
    let mut left: usize = n;
    if p.len() <= s.len() {
        while left > 0 && i <= s.len() - p.len()
            invariant
                p.len() > 0,
                p.len() <= s.len(),
                i <= s.len(),
                left <= n,
                out@ + replacen_from(s@, p@, r@, left as nat, i as int) == replacen(
                    s@,
                    p@,
                    r@,
                    n as nat,
                ),
            decreases s.len() - i,
        {
            let ghost before = out@;
            if matches_at(s, p, i) {
                push_all(&mut out, r);
                assert(out@ + replacen_from(s@, p@, r@, (left - 1) as nat, i + p.len()) == before
                    + replacen_from(s@, p@, r@, left as nat, i as int));
                i = i + p.len();
                left = left - 1;
            } else {
                out.push(s[i]);
                assert(out@ + replacen_from(s@, p@, r@, left as nat, i + 1) == before
                    + replacen_from(s@, p@, r@, left as nat, i as int));
                i = i + 1;
            }
        }
    }
    push_range(&mut out, s, i, s.len());
    out
}

/// Whether `c` is one of the characters of `set`.
pub fn char_in(set: &[char], c: char) -> (b: bool)
    ensures
        b == set@.contains(c),
{
    let mut i: usize = 0;
    while i < set.len()
        invariant
            i <= set.len(),
            forall|k: int| 0 <= k < i ==> set@[k] != c,
        decreases set.len() - i,
    {
        if set[i] == c {
            return true;
        }
        i = i + 1;
    }
    false
}

/// `s` with every character in `set` replaced by `r`.
pub fn replace_char_set(s: &[char], set: &[char], r: &[char]) -> (out: Vec<char>)
    ensures
        out@ == replace_chars(s@, set@, r@),
{
    let mut out: Vec<char> = Vec::new();
    let mut i: usize = 0;
    while i < s.len()
        invariant
            i <= s.len(),
            out@ == replace_chars(s@.take(i as int), set@, r@),
        decreases s.len() - i,
    {
        assert(s@.take(i + 1).drop_last() == s@.take(i as int));
        if char_in(set, s[i]) {
            push_all(&mut out, r);
        } else {
            out.push(s[i]);
        }
        i = i + 1;
    }
    assert(s@.take(s.len() as int) == s@);
    out
}


/// `s` without the prefix `p`, if it starts with it (`str::strip_prefix`).
pub open spec fn strip_prefix(s: Seq<char>, p: Seq<char>) -> Option<Seq<char>> {
    if p.is_prefix_of(s) {
        Some(s.skip(p.len() as int))
    } else {
        None
    }
}

/// `s` without the suffix `p`, if it ends with it (`str::strip_suffix`).
pub open spec fn strip_suffix(s: Seq<char>, p: Seq<char>) -> Option<Seq<char>> {
    if p.is_suffix_of(s) {
        Some(s.take(s.len() - p.len()))
    } else {
        None
    }
}

/// `s` with every trailing `c` removed (`str::trim_end_matches` with a character).
pub open spec fn trim_end_char(s: Seq<char>, c: char) -> Seq<char>
    decreases s.len(),
{
    if s.len() > 0 && s.last() == c {
        trim_end_char(s.drop_last(), c)
    } else {
        s
    }
}

/// `s` with every leading `c` removed (`str::trim_start_matches` with a character).
pub open spec fn trim_start_char(s: Seq<char>, c: char) -> Seq<char>
    decreases s.len(),
{
    if s.len() > 0 && s[0] == c {
        trim_start_char(s.drop_first(), c)
    } else {
        s
    }
}

/// Whether `c` has the Unicode `White_Space` property (what `char::is_whitespace` reports):
/// tab through carriage return, space, U+0085, U+00A0, U+1680, U+2000 through U+200A,
/// U+2028, U+2029, U+202F, U+205F and U+3000.
pub open spec fn unicode_white_space(c: char) -> bool {
    ||| '\t' <= c && c <= '\r'
    ||| c == ' '
    ||| c == '\u{85}'
    ||| c == '\u{a0}'
    ||| c == '\u{1680}'
    ||| '\u{2000}' <= c && c <= '\u{200a}'
    ||| c == '\u{2028}'
    ||| c == '\u{2029}'
    ||| c == '\u{202f}'
    ||| c == '\u{205f}'
    ||| c == '\u{3000}'
}

/// `s` without trailing white space.
pub open spec fn trim_end_ws(s: Seq<char>) -> Seq<char>
    decreases s.len(),
{
    if s.len() > 0 && unicode_white_space(s.last()) {
        trim_end_ws(s.drop_last())
    } else {
        s
    }
}

/// `s` without leading white space.
pub open spec fn trim_start_ws(s: Seq<char>) -> Seq<char>
    decreases s.len(),
{
    if s.len() > 0 && unicode_white_space(s[0]) {
        trim_start_ws(s.drop_first())
    } else {
        s
    }
}

/// `s` without leading and trailing white space (`str::trim`).
pub open spec fn trim_ws(s: Seq<char>) -> Seq<char> {
    trim_start_ws(trim_end_ws(s))
}

/// An ASCII character.
pub open spec fn is_ascii_char(c: char) -> bool {
    (c as u32) < 128
}

/// The ASCII white space characters: space, and tab through carriage return.
pub open spec fn is_ascii_space(c: char) -> bool {
    c == ' ' || ('\t' <= c && c <= '\r')
}

/// The ASCII letters and digits.
pub open spec fn is_ascii_alnum(c: char) -> bool {
    ('a' <= c && c <= 'z') || ('A' <= c && c <= 'Z') || ('0' <= c && c <= '9')
}

/// An ASCII character in lower case.
pub open spec fn ascii_lower(c: char) -> char {
    if 'A' <= c && c <= 'Z' {
        ((c as u32) + 32) as char
    } else {
        c
    }
}

/// Whether `c` is white space in the sense of `char::is_whitespace`.
pub fn is_whitespace(c: char) -> (b: bool)
    ensures
        b == unicode_white_space(c),
        is_ascii_char(c) ==> (b == is_ascii_space(c)),
{
    ('\t' <= c && c <= '\r') || c == ' ' || c == '\u{85}' || c == '\u{a0}' || c == '\u{1680}'
        || ('\u{2000}' <= c && c <= '\u{200a}') || c == '\u{2028}' || c == '\u{2029}'
        || c == '\u{202f}' || c == '\u{205f}' || c == '\u{3000}'
}

/// Whether `s` starts with `p`.
pub fn starts_with(s: &[char], p: &[char]) -> (b: bool)
    ensures
        b == p@.is_prefix_of(s@),
{
    let b = matches_at(s, p, 0);
    if b {
        assert forall|i: int| 0 <= i < p@.len() implies p@[i] == s@[i] by {
            assert(s@.subrange(0, p@.len() as int)[i] == s@[i]);
        }
    } else {
        proof {
            if p@.is_prefix_of(s@) {
                assert(s@.subrange(0, p@.len() as int) == p@);
            }
        }
    }
    b
}

/// Whether `s` ends with `p`.
pub fn ends_with(s: &[char], p: &[char]) -> (b: bool)
    ensures
        b == p@.is_suffix_of(s@),
{
    if p.len() > s.len() {
        return false;
    }
    let start = s.len() - p.len();
    let b = matches_at(s, p, start);
    if b {
        assert forall|i: int| 0 <= i < p@.len() implies p@[i] == s@[s@.len() - p@.len() + i] by {
            assert(s@.subrange(start as int, s@.len() as int)[i] == s@[start + i]);
        }
    } else {
        proof {
            if p@.is_suffix_of(s@) {
                assert(s@.subrange(start as int, s@.len() as int) == p@);
            }
        }
    }
    b
}

/// `s` with every trailing `c` removed.
pub fn trim_end_matches(s: &[char], c: char) -> (out: Vec<char>)
    ensures
        out@ == trim_end_char(s@, c),
{
    let mut j = s.len();
    assert(s@.take(s.len() as int) == s@);
    while j > 0 && s[j - 1] == c
        invariant
            j <= s.len(),
            trim_end_char(s@.take(j as int), c) == trim_end_char(s@, c),
        decreases j,
    {
        assert(s@.take(j as int).drop_last() == s@.take(j - 1));
        j = j - 1;
    }
    assert(s@.take(s.len() as int) == s@);
    let mut out: Vec<char> = Vec::new();
    push_range(&mut out, s, 0, j);
    out
}

/// `s` with every leading `c` removed.
pub fn trim_start_matches(s: &[char], c: char) -> (out: Vec<char>)
    ensures
        out@ == trim_start_char(s@, c),
{
    let mut i: usize = 0;
    assert(s@.skip(0) == s@);
    while i < s.len() && s[i] == c
        invariant
            i <= s.len(),
            trim_start_char(s@.skip(i as int), c) == trim_start_char(s@, c),
        decreases s.len() - i,
    {
        assert(s@.skip(i as int).drop_first() == s@.skip(i + 1));
        i = i + 1;
    }
    assert(s@.skip(0) == s@);
    let mut out: Vec<char> = Vec::new();
    push_range(&mut out, s, i, s.len());
    assert(s@.skip(i as int) == s@.subrange(i as int, s@.len() as int));
    out
}

/// `s` without leading and trailing white space.
pub fn trim(s: &[char]) -> (out: Vec<char>)
    ensures
        out@ == trim_ws(s@),
        (s@.len() == 0 || (is_ascii_char(s@[0]) && !is_ascii_space(s@[0]) && is_ascii_char(s@.last())
            && !is_ascii_space(s@.last()))) ==> out@ == s@,
{
    let ghost plain = s@.len() == 0 || (is_ascii_char(s@[0]) && !is_ascii_space(s@[0]) && is_ascii_char(
        s@.last(),
    ) && !is_ascii_space(s@.last()));
    let mut j = s.len();
    assert(s@.take(s.len() as int) == s@);
    while j > 0 && is_whitespace(s[j - 1])
        invariant
            j <= s.len(),
            trim_end_ws(s@.take(j as int)) == trim_end_ws(s@),
            plain == (s@.len() == 0 || (is_ascii_char(s@[0]) && !is_ascii_space(s@[0]) && is_ascii_char(
                s@.last(),
            ) && !is_ascii_space(s@.last()))),
            plain ==> j == s.len(),
        decreases j,
    {
        assert(s@.take(j as int).drop_last() == s@.take(j - 1));
        j = j - 1;
    }
    assert(s@.take(s.len() as int) == s@);
    assert(trim_end_ws(s@) == s@.take(j as int));
    let mut i: usize = 0;
    while i < j && is_whitespace(s[i])
        invariant
            i <= j <= s.len(),
            trim_start_ws(s@.subrange(i as int, j as int)) == trim_ws(s@),
            plain == (s@.len() == 0 || (is_ascii_char(s@[0]) && !is_ascii_space(s@[0]) && is_ascii_char(
                s@.last(),
            ) && !is_ascii_space(s@.last()))),
            plain ==> j == s.len() && i == 0,
        decreases j - i,
    {
        assert(s@.subrange(i as int, j as int).drop_first() == s@.subrange(i + 1, j as int));
        i = i + 1;
    }
    assert(s@.take(j as int) == s@.subrange(0, j as int));
    let mut out: Vec<char> = Vec::new();
    push_range(&mut out, s, i, j);
    assert(plain ==> s@.subrange(i as int, j as int) == s@);
    out
}


/// A line with one trailing carriage return removed.
pub open spec fn strip_cr(line: Seq<char>) -> Seq<char> {
    if line.len() > 0 && line.last() == '\r' {
        line.drop_last()
    } else {
        line
    }
}

/// The lines of `s` (`str::lines`): pieces ended by `\n` or `\r\n`; the last piece needs
/// no line ending, and nothing follows a final line ending.
pub open spec fn lines_of(s: Seq<char>) -> Seq<Seq<char>>
    decreases s.len(),
{
    if s.len() == 0 {
        seq![]
    } else {
        match find_first(s, seq!['\n']) {
            None => seq![s],
            Some(k) => {
                proof {
                    lemma_find_from(s, seq!['\n'], 0);
                }
                seq![strip_cr(s.take(k))] + lines_of(s.skip(k + 1))
            },
        }
    }
}

/// The views of a sequence of character vectors.
pub open spec fn views(v: Seq<Vec<char>>) -> Seq<Seq<char>> {
    v.map_values(|x: Vec<char>| x@)
}

/// `parts` with `sep` between each two neighbours (`[T]::join`).
pub open spec fn join(parts: Seq<Seq<char>>, sep: Seq<char>) -> Seq<char>
    decreases parts.len(),
{
    if parts.len() == 0 {
        seq![]
    } else if parts.len() == 1 {
        parts[0]
    } else {
        join(parts.drop_last(), sep) + sep + parts.last()
    }
}

/// The lines of `s`.
pub fn lines(s: &[char]) -> (out: Vec<Vec<char>>)
    ensures
        views(out@) == lines_of(s@),
{
    let nl: [char; 1] = ['\n'];
    assert(nl@ == seq!['\n']);
    let mut out: Vec<Vec<char>> = Vec::new();
    let mut i: usize = 0;
    assert(s@.skip(0) == s@);
    while i < s.len()
        invariant
            i <= s.len(),
            nl@ == seq!['\n'],
            views(out@) + lines_of(s@.skip(i as int)) == lines_of(s@),
        decreases s.len() - i,
    {
        let ghost rest = s@.skip(i as int);
        let ghost before = views(out@);
        let tail = &s[i..s.len()];
        assert(tail@ == rest);
        match find(tail, &nl, 0) {
            Some(k) => {
                proof {
                    lemma_find_from(rest, seq!['\n'], 0);
                }
                let end = i + k;
                let mut line: Vec<char> = Vec::new();
                if k > 0 && s[end - 1] == '\r' {
                    push_range(&mut line, s, i, end - 1);
                } else {
                    push_range(&mut line, s, i, end);
                }
                assert(line@ == strip_cr(rest.take(k as int)));
                out.push(line);
                assert(views(out@) == before.push(line@));
                assert(rest.skip(k + 1) == s@.skip(end + 1));
                assert(views(out@) + lines_of(s@.skip(end + 1)) == before + lines_of(rest));
                i = end + 1;
            },
            None => {
                let mut line: Vec<char> = Vec::new();
                push_range(&mut line, s, i, s.len());
                assert(line@ == rest);
                out.push(line);
                assert(views(out@) == before.push(line@));
                assert(s@.skip(s.len() as int) == Seq::<char>::empty());
                assert(views(out@) + lines_of(s@.skip(s.len() as int)) == before + lines_of(rest));
                i = s.len();
            },
        }
    }
    assert(s@.skip(s.len() as int) == Seq::<char>::empty());
    assert(views(out@) + lines_of(s@.skip(s.len() as int)) == views(out@));
    out
}

/// The parts joined with `sep` between neighbours.
pub fn join_with(parts: &Vec<Vec<char>>, sep: &[char]) -> (out: Vec<char>)
    ensures
        out@ == join(views(parts@), sep@),
{
    let mut out: Vec<char> = Vec::new();
    let mut i: usize = 0;
    while i < parts.len()
        invariant
            i <= parts.len(),
            out@ == join(views(parts@).take(i as int), sep@),
        decreases parts.len() - i,
    {
        let ghost vs = views(parts@);
        assert(vs.take(i + 1).drop_last() == vs.take(i as int));
        if i > 0 {
            push_all(&mut out, sep);
        }
        push_all(&mut out, parts[i].as_slice());
        assert(vs.take(i + 1).last() == parts@[i as int]@);
        i = i + 1;
    }
    assert(views(parts@).take(parts.len() as int) == views(parts@));
    out
}


/// Whether `c` is alphabetic or numeric in Unicode (what `char::is_alphanumeric` reports).
pub uninterp spec fn unicode_alphanumeric(c: char) -> bool;

/// `char::is_alphanumeric`.  Of non-ASCII characters the contract only ties the answer to
/// `c` through `unicode_alphanumeric`; which of them are alphanumeric is not stated.  Among
/// ASCII characters, the letters and digits are the alphanumeric ones.
#[verifier::external_body]
pub(crate) fn is_alphanumeric(c: char) -> (b: bool)
    ensures
        b == unicode_alphanumeric(c),
        is_ascii_char(c) ==> (b == is_ascii_alnum(c)),
{
    c.is_alphanumeric()
}

/// The Unicode lower-case form of a string (what `str::to_lowercase` returns).
pub uninterp spec fn unicode_lowercase(s: Seq<char>) -> Seq<char>;

/// `str::to_lowercase`.  Of strings with non-ASCII characters the contract only ties the
/// result to `s` through `unicode_lowercase`; that case mapping is not stated.  An ASCII
/// string is lower-cased character by character, `A` to `Z` becoming `a` to `z`.
#[verifier::external_body]
pub(crate) fn to_lowercase(s: &str) -> (r: String)
    ensures
        r@ == unicode_lowercase(s@),
        (forall|i: int| 0 <= i < s@.len() ==> is_ascii_char(#[trigger] s@[i])) ==> r@ == s@.map_values(
            |c: char| ascii_lower(c),
        ),
{
    s.to_lowercase()
}


/// Appends the characters of `s` to `out`.
pub fn push_str(out: &mut Vec<char>, s: &str)
    ensures
        final(out)@ == old(out)@ + s@,
{
    let chars = chars_of(s);
    push_all(out, chars.as_slice());
}

/// `s` without the prefix `p`, if it starts with it.
pub fn strip_prefix_chars(s: &[char], p: &[char]) -> (r: Option<Vec<char>>)
    ensures
        match r {
            Some(v) => strip_prefix(s@, p@) == Some(v@),
            None => strip_prefix(s@, p@) is None,
        },
{
    if starts_with(s, p) {
        let mut v: Vec<char> = Vec::new();
        push_range(&mut v, s, p.len(), s.len());
        assert(s@.subrange(p.len() as int, s.len() as int) == s@.skip(p.len() as int));
        Some(v)
    } else {
        None
    }
}

/// `s` without the suffix `p`, if it ends with it.
pub fn strip_suffix_chars(s: &[char], p: &[char]) -> (r: Option<Vec<char>>)
    ensures
        match r {
            Some(v) => strip_suffix(s@, p@) == Some(v@),
            None => strip_suffix(s@, p@) is None,
        },
{
    if ends_with(s, p) {
        let mut v: Vec<char> = Vec::new();
        push_range(&mut v, s, 0, s.len() - p.len());
        assert(s@.subrange(0, s.len() - p.len()) == s@.take(s.len() - p.len()));
        Some(v)
    } else {
        None
    }
}


/// Whether `p` occurs in `s`.
pub fn contains(s: &[char], p: &[char]) -> (b: bool)
    ensures
        b == contains_pat(s@, p@),
{
    find(s, p, 0).is_some()
}


/// The model of a result that carries a string.
pub open spec fn text_result<E>(r: Result<String, E>) -> Result<Seq<char>, E> {
    match r {
        Ok(s) => Ok(s@),
        Err(e) => Err(e),
    }
}


/// Whether two strings are the same.
pub fn same_text(a: &str, b: &str) -> (r: bool)
    ensures
        r == (a@ == b@),
{
    let x = chars_of(a);
    let y = chars_of(b);
    if x.len() != y.len() {
        return false;
    }
    let mut i: usize = 0;
    while i < x.len()
        invariant
            i <= x.len() == y.len(),
            x@ == a@,
            y@ == b@,
            forall|k: int| 0 <= k < i ==> x@[k] == y@[k],
        decreases x.len() - i,
    {
        if x[i] != y[i] {
            assert(x@[i as int] != y@[i as int]);
            return false;
        }
        i = i + 1;
    }
    assert(x@ == y@);
    true
}


/// A property of characters that holds of the text and of the replacement holds of every
/// character after replacing.
pub proof fn lemma_replace_keeps(
    s: Seq<char>,
    p: Seq<char>,
    r: Seq<char>,
    i: int,
    good: spec_fn(char) -> bool,
)
    requires
        0 <= i <= s.len(),
        forall|k: int| 0 <= k < s.len() ==> good(#[trigger] s[k]),
        forall|k: int| 0 <= k < r.len() ==> good(#[trigger] r[k]),
    ensures
        forall|k: int|
            0 <= k < replace_from(s, p, r, i).len() ==> good(#[trigger] replace_from(s, p, r, i)[k]),
    decreases s.len() - i,
{
    let out = replace_from(s, p, r, i);
    if p.len() == 0 || i + p.len() > s.len() {
        assert forall|k: int| 0 <= k < out.len() implies good(#[trigger] out[k]) by {
            assert(out[k] == s[i + k]);
        }
    } else if occurs_at(s, p, i) {
        lemma_replace_keeps(s, p, r, i + p.len(), good);
        let rest = replace_from(s, p, r, i + p.len());
        assert forall|k: int| 0 <= k < out.len() implies good(#[trigger] out[k]) by {
            if k < r.len() {
                assert(out[k] == r[k]);
            } else {
                assert(out[k] == rest[k - r.len()]);
            }
        }
    } else {
        lemma_replace_keeps(s, p, r, i + 1, good);
        let rest = replace_from(s, p, r, i + 1);
        assert forall|k: int| 0 <= k < out.len() implies good(#[trigger] out[k]) by {
            if k == 0 {
                assert(out[k] == s[i]);
            } else {
                assert(out[k] == rest[k - 1]);
            }
        }
    }
}

/// Removing trailing `c`s leaves a prefix that is empty or does not end with `c`.
pub proof fn lemma_trim_end_char(s: Seq<char>, c: char)
    ensures
        trim_end_char(s, c).len() <= s.len(),
        trim_end_char(s, c) == s.take(trim_end_char(s, c).len() as int),
        trim_end_char(s, c).len() == 0 || trim_end_char(s, c).last() != c,
    decreases s.len(),
{
    if s.len() > 0 && s.last() == c {
        lemma_trim_end_char(s.drop_last(), c);
        let t = trim_end_char(s, c);
        assert(s.drop_last().take(t.len() as int) == s.take(t.len() as int));
    } else {
        assert(s.take(s.len() as int) == s);
    }
}

} // verus!
