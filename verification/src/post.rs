//! Blog posts: reading a post's source, its link, and the order of the post list.

use vstd::prelude::*;
use crate::order::{lex_less, lex_lt, lemma_lex_asymmetric, lemma_lex_irreflexive, lemma_lex_not_after_transitive, lemma_lex_total};
use crate::dates::{chrono_parsed_date, is_post_date, post_date_format};
use crate::slug::{link_of, post_link};
use crate::text::{chars_of, find, same_text, find_first, lemma_find_from, push_range, string_of, trim_end_char, trim_end_matches};

verus! {

/// A post as the generator holds it.
pub struct Post {
    /// The first line of the source.
    pub title: String,
    /// The second line of the source, a `%Y-%m-%d` date.
    pub date: String,
    /// The rendered HTML of the rest of the source.
    pub content: String,
    /// The site-relative link of the post's page.
    pub link: String,
}

/// The model of a post.
pub struct PostView {
    pub title: Seq<char>,
    pub date: Seq<char>,
    pub content: Seq<char>,
    pub link: Seq<char>,
}

impl View for Post {
    type V = PostView;

    open spec fn view(&self) -> PostView {
        PostView { title: self.title@, date: self.date@, content: self.content@, link: self.link@ }
    }
}

/// The models of a sequence of posts.
pub open spec fn post_views(posts: Seq<Post>) -> Seq<PostView> {
    posts.map_values(|p: Post| p@)
}

/// The posts are ordered newest first: no post's date comes before a later post's date.
pub open spec fn newest_first(s: Seq<PostView>) -> bool {
    forall|i: int, j: int|
        0 <= i < j < s.len() ==> !lex_lt(#[trigger] s[i].date, #[trigger] s[j].date)
}

/// Whether a post has the date `d`.
pub open spec fn date_is(d: Seq<char>) -> spec_fn(PostView) -> bool {
    |p: PostView| p.date == d
}

/// The posts of date `d`, in their order.
pub open spec fn dated(s: Seq<PostView>, d: Seq<char>) -> Seq<PostView> {
    s.filter(date_is(d))
}

/// No post of `s` has date `d`, so none is kept.
proof fn lemma_dated_none(s: Seq<PostView>, d: Seq<char>)
    requires
        forall|i: int| 0 <= i < s.len() ==> s[i].date != d,
    ensures
        dated(s, d) == Seq::<PostView>::empty(),
    decreases s.len(),
{
    reveal(Seq::filter);
    if s.len() > 0 {
        lemma_dated_none(s.drop_last(), d);
    }
}

/// Inserting `x` after every post of a later date and before the rest keeps the order, and
/// puts `x` first among the posts of its date.
proof fn lemma_insert_post(out: Seq<PostView>, q: int, x: PostView)
    requires
        newest_first(out),
        0 <= q <= out.len(),
        forall|i: int| 0 <= i < q ==> lex_lt(x.date, #[trigger] out[i].date),
        q < out.len() ==> !lex_lt(x.date, out[q].date),
    ensures
        newest_first(out.insert(q, x)),
        forall|d: Seq<char>|
            #[trigger] dated(out.insert(q, x), d) == (if x.date == d {
                seq![x]
            } else {
                Seq::<PostView>::empty()
            }) + dated(out, d),
{
    let n = out.insert(q, x);
    assert forall|i: int, j: int| 0 <= i < j < n.len() implies !lex_lt(
        #[trigger] n[i].date,
        #[trigger] n[j].date,
    ) by {
        if i < q && j == q {
            lemma_lex_asymmetric(x.date, out[i].date);
        } else if i < q && j < q {
            assert(n[i] == out[i] && n[j] == out[j]);
        } else if i < q && j > q {
            assert(n[i] == out[i] && n[j] == out[j - 1]);
            assert(!lex_lt(out[i].date, out[j - 1].date));
        } else if i == q {
            assert(n[j] == out[j - 1]);
            if q == j - 1 {
                lemma_lex_irreflexive(out[q].date);
            } else {
                assert(!lex_lt(out[q].date, out[j - 1].date));
            }
            lemma_lex_not_after_transitive(x.date, out[q].date, out[j - 1].date);
        } else {
            assert(n[i] == out[i - 1] && n[j] == out[j - 1]);
            assert(!lex_lt(out[i - 1].date, out[j - 1].date));
        }
    }
    assert forall|d: Seq<char>| #[trigger] dated(n, d) == (if x.date == d {
        seq![x]
    } else {
        Seq::<PostView>::empty()
    }) + dated(out, d) by {
        let front = out.take(q);
        let back = out.skip(q);
        assert(n == front + (seq![x] + back));
        assert(out == front + back);
        Seq::filter_distributes_over_add(front, seq![x] + back, date_is(d));
        Seq::filter_distributes_over_add(front, back, date_is(d));
        back.lemma_filter_prepend(x, date_is(d));
        if x.date == d {
            assert forall|i: int| 0 <= i < front.len() implies front[i].date != d by {
                lemma_lex_irreflexive(x.date);
            }
            lemma_dated_none(front, d);
        }
    }
}

/// Orders the posts newest first (by comparing their date strings), keeping posts of the
/// same date in the order they came in.
pub fn sort_posts(posts: Vec<Post>) -> (sorted: Vec<Post>)
    ensures
        sorted.len() == posts.len(),
        newest_first(post_views(sorted@)),
        forall|d: Seq<char>|
            #[trigger] dated(post_views(sorted@), d) == dated(post_views(posts@), d),
{
    let ghost orig = post_views(posts@);
    let mut rest = posts;
    let mut out: Vec<Post> = Vec::new();
    assert(orig.take(orig.len() as int) == orig);
    assert(orig.skip(orig.len() as int) == Seq::<PostView>::empty());
    assert forall|d: Seq<char>| #[trigger] dated(post_views(out@), d) == dated(
        orig.skip(orig.len() as int),
        d,
    ) by {
        lemma_dated_none(Seq::<PostView>::empty(), d);
        assert(post_views(out@) == Seq::<PostView>::empty());
    }
    while rest.len() > 0
        invariant
            rest.len() <= orig.len(),
            post_views(rest@) == orig.take(rest.len() as int),
            rest.len() + out.len() == orig.len(),
            newest_first(post_views(out@)),
            forall|d: Seq<char>|
                #[trigger] dated(post_views(out@), d) == dated(orig.skip(rest.len() as int), d),
        decreases rest.len(),
    {
        let ghost m = rest.len() as int;
        let ghost before = post_views(out@);
        let ghost old_rest = rest@;
        let x = rest.pop().unwrap();
        assert(x == old_rest[m - 1]);
        assert(post_views(old_rest)[m - 1] == old_rest[m - 1]@);
        assert(orig.take(m)[m - 1] == orig[m - 1]);
        assert(x@ == orig[m - 1]);
        assert(post_views(rest@) == orig.take(m - 1));
        let xd = chars_of(x.date.as_str());
        let mut q: usize = 0;
        while q < out.len() && lex_less(xd.as_slice(), chars_of(out[q].date.as_str()).as_slice())
            invariant
                q <= out.len(),
                xd@ == x.date@,
                before == post_views(out@),
                forall|i: int| 0 <= i < q ==> lex_lt(x.date@, #[trigger] before[i].date),
            decreases out.len() - q,
        {
            q = q + 1;
        }
        proof {
            lemma_insert_post(before, q as int, x@);
            assert(orig.skip(m - 1) == seq![orig[m - 1]] + orig.skip(m));
            assert forall|d: Seq<char>| #[trigger] dated(orig.skip(m - 1), d) == (if x@.date == d {
                seq![x@]
            } else {
                Seq::<PostView>::empty()
            }) + dated(orig.skip(m), d) by {
                orig.skip(m).lemma_filter_prepend(x@, date_is(d));
            }
        }
        out.insert(q, x);
        assert(post_views(out@) == before.insert(q as int, x@));
    }
    out
}

/// Two lists ordered newest first that hold the same posts of each date, in the same
/// order, are the same list.  So `sort_posts`'s contract fixes its result, and sorting a
/// list that is already newest first gives it back unchanged.
pub proof fn lemma_newest_first_unique(s: Seq<PostView>, t: Seq<PostView>)
    requires
        newest_first(s),
        newest_first(t),
        forall|d: Seq<char>| #[trigger] dated(s, d) == dated(t, d),
    ensures
        s == t,
    decreases s.len(),
{
    if s.len() == 0 {
        if t.len() > 0 {
            assert(t == seq![t[0]] + t.drop_first());
            t.drop_first().lemma_filter_prepend(t[0], date_is(t[0].date));
            lemma_dated_none(s, t[0].date);
            assert(dated(s, t[0].date) == dated(t, t[0].date));
        }
    } else if t.len() == 0 {
        assert(s == seq![s[0]] + s.drop_first());
        s.drop_first().lemma_filter_prepend(s[0], date_is(s[0].date));
        lemma_dated_none(t, s[0].date);
        assert(dated(s, s[0].date) == dated(t, s[0].date));
    } else {
        let s0 = s[0];
        let t0 = t[0];
        let rs = s.drop_first();
        let rt = t.drop_first();
        assert(s == seq![s0] + rs);
        assert(t == seq![t0] + rt);
        // The newest date of `s` occurs in `t`, so it is not after `t`'s newest date.
        rs.lemma_filter_prepend(s0, date_is(s0.date));
        assert(dated(t, s0.date) == dated(s, s0.date));
        if forall|j: int| 0 <= j < t.len() ==> t[j].date != s0.date {
            lemma_dated_none(t, s0.date);
        }
        let j = choose|j: int| 0 <= j < t.len() && t[j].date == s0.date;
        if j > 0 {
            assert(!lex_lt(t[0].date, t[j].date));
        } else {
            lemma_lex_irreflexive(t0.date);
        }
        // And the other way round.
        rt.lemma_filter_prepend(t0, date_is(t0.date));
        assert(dated(s, t0.date) == dated(t, t0.date));
        if forall|i: int| 0 <= i < s.len() ==> s[i].date != t0.date {
            lemma_dated_none(s, t0.date);
        }
        let i = choose|i: int| 0 <= i < s.len() && s[i].date == t0.date;
        if i > 0 {
            assert(!lex_lt(s[0].date, s[i].date));
        } else {
            lemma_lex_irreflexive(s0.date);
        }
        lemma_lex_total(s0.date, t0.date);
        assert(s0.date == t0.date);
        assert(dated(s, s0.date)[0] == s0);
        assert(dated(t, s0.date)[0] == t0);
        assert(s0 == t0);
        assert forall|x: int, y: int| 0 <= x < y < rs.len() implies !lex_lt(
            #[trigger] rs[x].date,
            #[trigger] rs[y].date,
        ) by {
            assert(rs[x] == s[x + 1] && rs[y] == s[y + 1]);
        }
        assert forall|x: int, y: int| 0 <= x < y < rt.len() implies !lex_lt(
            #[trigger] rt[x].date,
            #[trigger] rt[y].date,
        ) by {
            assert(rt[x] == t[x + 1] && rt[y] == t[y + 1]);
        }
        assert forall|d: Seq<char>| #[trigger] dated(rs, d) == dated(rt, d) by {
            rs.lemma_filter_prepend(s0, date_is(d));
            rt.lemma_filter_prepend(t0, date_is(d));
            assert(dated(s, d) == dated(t, d));
            if s0.date == d {
                assert(dated(rs, d) == dated(s, d).drop_first());
                assert(dated(rt, d) == dated(t, d).drop_first());
            }
        }
        lemma_newest_first_unique(rs, rt);
    }
}

/// Why a post's source could not be read.
#[derive(Clone, Copy, Debug, PartialEq, Eq, Structural)]
pub enum PostError {
    /// The source has no second line, the date.
    NoDate,
    /// The second line is not a `%Y-%m-%d` date.
    InvalidDate,
}

/// The three parts of a post's source: its title, its date, and its Markdown body.
pub struct PostSource {
    pub title: String,
    pub date: String,
    pub body: String,
}

/// The first line, the second line (each without trailing carriage returns) and the rest
/// of a post's source, or `None` when there is no line break; the body is empty when there
/// is no second line break.
pub open spec fn sections_of(source: Seq<char>) -> Option<(Seq<char>, Seq<char>, Seq<char>)> {
    match find_first(source, seq!['\n']) {
        None => None,
        Some(a) => {
            let title = trim_end_char(source.take(a), '\r');
            let rest = source.skip(a + 1);
            match find_first(rest, seq!['\n']) {
                None => Some((title, trim_end_char(rest, '\r'), seq![])),
                Some(b) => Some((title, trim_end_char(rest.take(b), '\r'), rest.skip(b + 1))),
            }
        },
    }
}

/// The parts of a post's source, or why it cannot be read.
pub open spec fn post_source_of(source: Seq<char>) -> Result<(Seq<char>, Seq<char>, Seq<char>), PostError> {
    match sections_of(source) {
        None => Err(PostError::NoDate),
        Some((title, date, body)) => if chrono_parsed_date(date, post_date_format()) is Some {
            Ok((title, date, body))
        } else {
            Err(PostError::InvalidDate)
        },
    }
}

/// Splits a post's source into its title, its date and its body, and checks the date.
pub fn parse_post_source(source: &str) -> (r: Result<PostSource, PostError>)
    ensures
        match r {
            Ok(s) => post_source_of(source@) == Ok::<(Seq<char>, Seq<char>, Seq<char>), PostError>(
                (s.title@, s.date@, s.body@),
            ),
            Err(e) => post_source_of(source@) == Err::<(Seq<char>, Seq<char>, Seq<char>), PostError>(e),
        },
{
    let chars = chars_of(source);
    let nl = ['\n'];
    assert(nl@ == seq!['\n']);
    let a = match find(chars.as_slice(), &nl, 0) {
        Some(a) => a,
        None => return Err(PostError::NoDate),
    };
    proof {
        lemma_find_from(chars@, seq!['\n'], 0);
    }
    let title = trim_end_matches(&chars[0..a], '\r');
    assert(chars@.subrange(0, a as int) == chars@.take(a as int));
    let rest = &chars[a + 1..chars.len()];
    assert(rest@ == chars@.skip(a + 1));
    let (date, body) = match find(rest, &nl, 0) {
        None => (trim_end_matches(rest, '\r'), Vec::new()),
        Some(b) => {
            proof {
                lemma_find_from(rest@, seq!['\n'], 0);
            }
            let mut body: Vec<char> = Vec::new();
            push_range(&mut body, rest, b + 1, rest.len());
            assert(rest@.subrange(0, b as int) == rest@.take(b as int));
            assert(rest@.subrange(b + 1, rest@.len() as int) == rest@.skip(b + 1));
            (trim_end_matches(&rest[0..b], '\r'), body)
        },
    };
    let date = string_of(&date);
    if !is_post_date(date.as_str()) {
        return Err(PostError::InvalidDate);
    }
    Ok(PostSource { title: string_of(&title), date, body: string_of(&body) })
}

/// A post with its title, date and rendered content; its link is made from its date and
/// title.
pub fn new_post(title: String, date: String, content: String) -> (post: Post)
    ensures
        post.title@ == title@,
        post.date@ == date@,
        post.content@ == content@,
        post.link@ == link_of(date@, title@),
{
    let link = post_link(date.as_str(), title.as_str());
    Post { title, date, content, link }
}

/// Whether a file in `posts/` is read as a post: its name has the extension `md`.
pub fn is_post_file(extension: Option<&str>) -> (post: bool)
    ensures
        post == (extension matches Some(e) && e@ == "md"@),
{
    match extension {
        Some(e) => same_text(e, "md"),
        None => false,
    }
}

} // verus!
