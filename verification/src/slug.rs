//! Post slugs, links and output paths.

use vstd::prelude::*;
use crate::text::{
    ascii_lower, chars_of, is_alphanumeric, is_ascii_alnum, is_ascii_char, lemma_replace_keeps,
    lemma_trim_end_char, push_all, replace, replace_all, replace_char_set, replace_chars,
    string_of, to_lowercase, trim, trim_end_char, trim_end_matches, trim_ws, unicode_alphanumeric,
    unicode_lowercase,
};

verus! {

/// What a title character becomes in a slug: itself if it is a hyphen or alphanumeric, a
/// hyphen otherwise.
pub open spec fn slug_char(c: char) -> char {
    if c == '-' || unicode_alphanumeric(c) {
        c
    } else {
        '-'
    }
}

/// The slug of a title: each character mapped by `slug_char`, each `--` (left to right)
/// made `-`, trailing hyphens and surrounding white space removed, then lower-cased.
pub open spec fn slug_of(title: Seq<char>) -> Seq<char> {
    unicode_lowercase(
        trim_ws(trim_end_char(replace_all(title.map_values(|c: char| slug_char(c)), "--"@, "-"@), '-')),
    )
}

/// The date part of a post's link and path: the date with each `-` made `/`.
pub open spec fn date_path(date: Seq<char>) -> Seq<char> {
    replace_chars(date, seq!['-'], "/"@)
}

/// The link of a post: `/`, its date path, `/`, its slug, `/`.
pub open spec fn link_of(date: Seq<char>, title: Seq<char>) -> Seq<char> {
    "/"@ + date_path(date) + "/"@ + slug_of(title) + "/"@
}

/// A slug made of ASCII lower-case letters, digits and hyphens that does not end with a
/// hyphen.
pub open spec fn is_ascii_slug(s: Seq<char>) -> bool {
    &&& forall|i: int|
        0 <= i < s.len() ==> #[trigger] s[i] == '-' || ('a' <= s[i] && s[i] <= 'z') || ('0' <= s[i]
            && s[i] <= '9')
    &&& s.len() == 0 || s.last() != '-'
}

/// A character that may stand in a slug before it is lower-cased.
pub open spec fn slug_ascii_char(c: char) -> bool {
    c == '-' || is_ascii_alnum(c)
}

/// What an ASCII title character becomes in a slug: itself if it is a hyphen, an ASCII
/// letter or a digit, a hyphen otherwise.
pub open spec fn ascii_slug_char(c: char) -> char {
    if slug_ascii_char(c) {
        c
    } else {
        '-'
    }
}

/// The slug of a title made of ASCII characters: each character mapped by
/// `ascii_slug_char`, each `--` (left to right) made `-`, trailing hyphens removed, then
/// `A` to `Z` made `a` to `z`.
pub open spec fn ascii_slug_of(title: Seq<char>) -> Seq<char> {
    trim_end_char(
        replace_all(title.map_values(|c: char| ascii_slug_char(c)), "--"@, "-"@),
        '-',
    ).map_values(|c: char| ascii_lower(c))
}

/// Makes the URL slug of a post title.  The slug of an ASCII title holds only lower-case
/// letters, digits and hyphens, and does not end with a hyphen.
pub fn titleify(title: &str) -> (slug: String)
    ensures
        slug@ == slug_of(title@),
        (forall|i: int| 0 <= i < title@.len() ==> is_ascii_char(#[trigger] title@[i])) ==> is_ascii_slug(
            slug@,
        ),
        (forall|i: int| 0 <= i < title@.len() ==> is_ascii_char(#[trigger] title@[i])) ==> slug@
            == ascii_slug_of(title@),
{
    proof {
        reveal_strlit("--");
        reveal_strlit("-");
    }
    let ghost ascii = forall|i: int| 0 <= i < title@.len() ==> is_ascii_char(#[trigger] title@[i]);
    let chars = chars_of(title);
    let mut mapped: Vec<char> = Vec::new();
    let mut i: usize = 0;
    while i < chars.len()
        invariant
            i <= chars.len(),
            chars@ == title@,
            ascii == forall|i: int| 0 <= i < title@.len() ==> is_ascii_char(#[trigger] title@[i]),
            mapped@ == chars@.take(i as int).map_values(|c: char| slug_char(c)),
            ascii ==> forall|k: int| 0 <= k < i ==> slug_ascii_char(#[trigger] mapped@[k]),
            ascii ==> mapped@ == chars@.take(i as int).map_values(|c: char| ascii_slug_char(c)),
        decreases chars.len() - i,
    {
        let c = chars[i];
        assert(ascii ==> is_ascii_char(title@[i as int]));
        if c == '-' || is_alphanumeric(c) {
            mapped.push(c);
        } else {
            mapped.push('-');
        }
        assert(chars@.take(i + 1).map_values(|c: char| slug_char(c)) == chars@.take(
            i as int,
        ).map_values(|c: char| slug_char(c)).push(slug_char(c)));
        assert(chars@.take(i + 1).map_values(|c: char| ascii_slug_char(c)) == chars@.take(
            i as int,
        ).map_values(|c: char| ascii_slug_char(c)).push(ascii_slug_char(c)));
        i = i + 1;
    }
    assert(chars@.take(chars.len() as int) == chars@);
    let single = replace(mapped.as_slice(), chars_of("--").as_slice(), chars_of("-").as_slice());
    let end_trimmed = trim_end_matches(single.as_slice(), '-');
    proof {
        if ascii {
            let good = |c: char| slug_ascii_char(c);
            assert forall|k: int| 0 <= k < mapped@.len() implies good(#[trigger] mapped@[k]) by {}
            assert forall|k: int| 0 <= k < "-"@.len() implies good(#[trigger] "-"@[k]) by {}
            lemma_replace_keeps(mapped@, "--"@, "-"@, 0, good);
            lemma_trim_end_char(single@, '-');
            assert forall|k: int| 0 <= k < end_trimmed@.len() implies slug_ascii_char(
                #[trigger] end_trimmed@[k],
            ) by {
                assert(end_trimmed@[k] == single@[k]);
                assert(good(single@[k]));
            }
            if end_trimmed@.len() > 0 {
                assert(slug_ascii_char(end_trimmed@[0]));
                assert(slug_ascii_char(end_trimmed@.last()));
            }
        }
    }
    let trimmed = trim(end_trimmed.as_slice());
    let trimmed_text = string_of(&trimmed);
    proof {
        if ascii {
            assert(trimmed@ == end_trimmed@);
            assert forall|k: int| 0 <= k < trimmed_text@.len() implies is_ascii_char(
                #[trigger] trimmed_text@[k],
            ) by {
                assert(slug_ascii_char(end_trimmed@[k]));
            }
        }
    }
    let slug = to_lowercase(trimmed_text.as_str());
    proof {
        if ascii {
            assert forall|k: int| 0 <= k < slug@.len() implies #[trigger] slug@[k] == '-' || ('a'
                <= slug@[k] && slug@[k] <= 'z') || ('0' <= slug@[k] && slug@[k] <= '9') by {
                assert(slug_ascii_char(end_trimmed@[k]));
                assert(slug@[k] == ascii_lower(end_trimmed@[k]));
            }
            if slug@.len() > 0 {
                assert(slug@.last() == ascii_lower(end_trimmed@.last()));
            }
            assert(slug@ == trimmed_text@.map_values(|c: char| ascii_lower(c)));
            assert(trimmed_text@ == end_trimmed@);
        }
    }
    slug
}

/// The date part of a post's link: the date with each `-` made `/`.
pub fn link_date(date: &str) -> (out: Vec<char>)
    ensures
        out@ == date_path(date@),
{
    let dash = ['-'];
    assert(dash@ == seq!['-']);
    replace_char_set(chars_of(date).as_slice(), &dash, chars_of("/").as_slice())
}

/// The link of the post with this date and title.
pub fn post_link(date: &str, title: &str) -> (link: String)
    ensures
        link@ == link_of(date@, title@),
{
    let slash = chars_of("/");
    let mut out: Vec<char> = Vec::new();
    push_all(&mut out, slash.as_slice());
    push_all(&mut out, link_date(date).as_slice());
    push_all(&mut out, slash.as_slice());
    push_all(&mut out, chars_of(titleify(title).as_str()).as_slice());
    push_all(&mut out, slash.as_slice());
    string_of(&out)
}

/// The components, below the site's root, of the path a post's page is written to:
/// its date path, its slug, and `index.html`.
pub fn post_page_path(date: &str, title: &str) -> (path: Vec<String>)
    ensures
        path@.len() == 3,
        path@[0]@ == date_path(date@),
        path@[1]@ == slug_of(title@),
        path@[2]@ == "index.html"@,
{
    let mut path: Vec<String> = Vec::new();
    path.push(string_of(&link_date(date)));
    path.push(titleify(title));
    path.push(String::from_str("index.html"));
    path
}

} // verus!
