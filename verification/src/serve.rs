//! Answering requests for the generated site.

use vstd::prelude::*;
use crate::text::{chars_of, find, find_first, lemma_find_from, occurs_at, same_text, string_of, trim_start_char, trim_start_matches};

verus! {

/// The part of a request URL before its first `?`.
pub open spec fn before_query(url: Seq<char>) -> Seq<char> {
    match find_first(url, seq!['?']) {
        Some(k) => url.take(k),
        None => url,
    }
}

/// The file a request asks for, below the site's root: the URL's path without its query
/// and its leading slashes, or `index.html` when nothing is left.
pub open spec fn requested_path_of(url: Seq<char>) -> Seq<char> {
    let relative = trim_start_char(before_query(url), '/');
    if relative.len() == 0 {
        "index.html"@
    } else {
        relative
    }
}

/// The file a request for `url` asks for, below the site's root.
pub fn requested_path(url: &str) -> (path: String)
    ensures
        path@ == requested_path_of(url@),
{
    let chars = chars_of(url);
    let question = ['?'];
    assert(question@ == seq!['?']);
    let path_part = match find(chars.as_slice(), &question, 0) {
        Some(k) => {
            proof {
                lemma_find_from(chars@, seq!['?'], 0);
            }
            assert(chars@.subrange(0, k as int) == chars@.take(k as int));
            &chars[0..k]
        },
        None => chars.as_slice(),
    };
    let relative = trim_start_matches(path_part, '/');
    if relative.len() == 0 {
        String::from_str("index.html")
    } else {
        string_of(&relative)
    }
}

/// The content type served for a file with the given extension.
pub open spec fn mime_of(extension: Option<Seq<char>>) -> Seq<char> {
    match extension {
        Some(e) => if e == "html"@ {
            "text/html; charset=utf-8"@
        } else if e == "css"@ {
            "text/css; charset=utf-8"@
        } else if e == "js"@ {
            "text/javascript; charset=utf-8"@
        } else if e == "png"@ {
            "image/png"@
        } else if e == "jpg"@ || e == "jpeg"@ {
            "image/jpeg"@
        } else if e == "svg"@ {
            "image/svg+xml"@
        } else if e == "xml"@ {
            "application/xml; charset=utf-8"@
        } else if e == "txt"@ {
            "text/plain; charset=utf-8"@
        } else {
            "application/octet-stream"@
        },
        None => "application/octet-stream"@,
    }
}

/// The content type served for a file with the given extension (`None` when the file has
/// none, or none that is valid UTF-8).
pub fn mime_type(extension: Option<&str>) -> (mime: &'static str)
    ensures
        mime@ == mime_of(
            match extension {
                Some(e) => Some(e@),
                None => None,
            },
        ),
{
    match extension {
        Some(e) => if same_text(e, "html") {
            "text/html; charset=utf-8"
        } else if same_text(e, "css") {
            "text/css; charset=utf-8"
        } else if same_text(e, "js") {
            "text/javascript; charset=utf-8"
        } else if same_text(e, "png") {
            "image/png"
        } else if same_text(e, "jpg") || same_text(e, "jpeg") {
            "image/jpeg"
        } else if same_text(e, "svg") {
            "image/svg+xml"
        } else if same_text(e, "xml") {
            "application/xml; charset=utf-8"
        } else if same_text(e, "txt") {
            "text/plain; charset=utf-8"
        } else {
            "application/octet-stream"
        },
        None => "application/octet-stream",
    }
}


/// Removing leading `c`s leaves nothing or something that does not start with `c`, and
/// keeps only characters of `s`.
proof fn lemma_trim_start_char(s: Seq<char>, c: char)
    ensures
        trim_start_char(s, c).len() == 0 || trim_start_char(s, c)[0] != c,
        trim_start_char(s, c) == s.skip(s.len() - trim_start_char(s, c).len()),
        trim_start_char(s, c).len() <= s.len(),
    decreases s.len(),
{
    if s.len() > 0 && s[0] == c {
        lemma_trim_start_char(s.drop_first(), c);
        let t = trim_start_char(s, c);
        assert(s.drop_first().skip(s.drop_first().len() - t.len()) == s.skip(s.len() - t.len()));
    } else {
        assert(s.skip(0) == s);
    }
}

/// The file a request asks for is a path below the site's root: it never starts with `/`,
/// holds no `?`, and is never empty.
pub proof fn lemma_requested_path_is_relative(url: Seq<char>)
    ensures
        requested_path_of(url).len() > 0,
        requested_path_of(url)[0] != '/',
        forall|i: int| 0 <= i < requested_path_of(url).len() ==> requested_path_of(url)[i] != '?',
{
    reveal_strlit("index.html");
    let q = before_query(url);
    lemma_find_from(url, seq!['?'], 0);
    assert forall|i: int| 0 <= i < q.len() implies q[i] != '?' by {
        if let Some(k) = find_first(url, seq!['?']) {
            assert(q[i] == url[i]);
            if url[i] == '?' {
                assert(url.subrange(i, i + 1) == seq!['?']);
                assert(occurs_at(url, seq!['?'], i));
            }
        } else {
            if url[i] == '?' {
                assert(url.subrange(i, i + 1) == seq!['?']);
                assert(occurs_at(url, seq!['?'], i));
            }
        }
    }
    lemma_trim_start_char(q, '/');
    let r = trim_start_char(q, '/');
    assert forall|i: int| 0 <= i < r.len() implies r[i] != '?' by {
        assert(r[i] == q[q.len() - r.len() + i]);
    }
}

/// Whether the path with the components `path` lies under the one with the components
/// `root`: `root`'s components begin `path`'s (what `Path::starts_with` tests).
pub open spec fn is_within(root: Seq<Seq<u8>>, path: Seq<Seq<u8>>) -> bool {
    root.len() <= path.len() && path.take(root.len() as int) == root
}

/// Whether two byte strings are equal.
fn same_bytes(a: &Vec<u8>, b: &Vec<u8>) -> (same: bool)
    ensures
        same == (a@ == b@),
{
    if a.len() != b.len() {
        return false;
    }
    let mut i: usize = 0;
    while i < a.len()
        invariant
            a.len() == b.len(),
            i <= a.len(),
            forall|k: int| 0 <= k < i ==> a@[k] == b@[k],
        decreases a.len() - i,
    {
        if a[i] != b[i] {
            return false;
        }
        i = i + 1;
    }
    assert(a@ == b@);
    true
}

/// Whether the path with the components `path` lies under the one with the components
/// `root`.
pub fn is_within_root(root: &Vec<Vec<u8>>, path: &Vec<Vec<u8>>) -> (within: bool)
    ensures
        within == is_within(root.deep_view(), path.deep_view()),
{
    let ghost r = root.deep_view();
    let ghost p = path.deep_view();
    if root.len() > path.len() {
        return false;
    }
    let mut i: usize = 0;
    while i < root.len()
        invariant
            r == root.deep_view(),
            p == path.deep_view(),
            root.len() <= path.len(),
            i <= root.len(),
            forall|k: int| 0 <= k < i ==> p[k] == r[k],
        decreases root.len() - i,
    {
        assert(r[i as int] == root[i as int]@);
        assert(p[i as int] == path[i as int]@);
        if !same_bytes(&root[i], &path[i]) {
            assert(p.take(r.len() as int)[i as int] == p[i as int]);
            return false;
        }
        i = i + 1;
    }
    assert(p.take(r.len() as int) == r);
    true
}

/// Whether a request is answered with a file: the path it asks for resolved (`Some`) to a
/// path under the site's root, and that path is a regular file.  Every other request is
/// answered "not found".
pub fn serves_file(root: &Vec<Vec<u8>>, resolved: &Option<Vec<Vec<u8>>>, is_file: bool) -> (serve: bool)
    ensures
        serve == (resolved matches Some(p) && is_within(root.deep_view(), p.deep_view())
            && is_file),
{
    match resolved {
        Some(p) => is_within_root(root, p) && is_file,
        None => false,
    }
}

/// Each content type is served for exactly the extensions it stands for: HTML for `html`,
/// CSS for `css`, JavaScript for `js`, PNG for `png`, JPEG for `jpg` and `jpeg`, SVG for
/// `svg`, XML for `xml`, plain text for `txt`, and raw bytes for every other extension and
/// for a file without one.
pub proof fn lemma_content_types(extension: Option<Seq<char>>)
    ensures
        (mime_of(extension) == "text/html; charset=utf-8"@) <==> extension == Some("html"@),
        (mime_of(extension) == "text/css; charset=utf-8"@) <==> extension == Some("css"@),
        (mime_of(extension) == "text/javascript; charset=utf-8"@) <==> extension == Some(
            "js"@,
        ),
        (mime_of(extension) == "image/png"@) <==> extension == Some("png"@),
        (mime_of(extension) == "image/jpeg"@) <==> (extension == Some("jpg"@) || extension
            == Some("jpeg"@)),
        (mime_of(extension) == "image/svg+xml"@) <==> extension == Some("svg"@),
        (mime_of(extension) == "application/xml; charset=utf-8"@) <==> extension == Some(
            "xml"@,
        ),
        (mime_of(extension) == "text/plain; charset=utf-8"@) <==> extension == Some("txt"@),
        (mime_of(extension) == "application/octet-stream"@) <==> !(extension == Some("html"@)
            || extension == Some("css"@) || extension == Some("js"@) || extension == Some(
            "png"@,
        ) || extension == Some("jpg"@) || extension == Some("jpeg"@) || extension == Some(
            "svg"@,
        ) || extension == Some("xml"@) || extension == Some("txt"@)),
{
    reveal_strlit("html");
    reveal_strlit("css");
    reveal_strlit("js");
    reveal_strlit("png");
    reveal_strlit("jpg");
    reveal_strlit("jpeg");
    reveal_strlit("svg");
    reveal_strlit("xml");
    reveal_strlit("txt");
    reveal_strlit("text/html; charset=utf-8");
    reveal_strlit("text/css; charset=utf-8");
    reveal_strlit("text/javascript; charset=utf-8");
    reveal_strlit("image/png");
    reveal_strlit("image/jpeg");
    reveal_strlit("image/svg+xml");
    reveal_strlit("application/xml; charset=utf-8");
    reveal_strlit("text/plain; charset=utf-8");
    reveal_strlit("application/octet-stream");
    assert("text/html; charset=utf-8"@[5] == 'h');
    assert("text/css; charset=utf-8"@[5] == 'c');
    assert("text/javascript; charset=utf-8"@[5] == 'j');
    assert("text/plain; charset=utf-8"@[5] == 'p');
    assert("image/png"@[0] == 'i' && "image/jpeg"@[0] == 'i' && "image/svg+xml"@[0] == 'i');
    assert("application/xml; charset=utf-8"@[0] == 'a');
    assert("application/octet-stream"@[0] == 'a');
    assert("image/png"@[6] == 'p' && "image/jpeg"@[6] == 'j' && "image/svg+xml"@[6] == 's');
    assert("application/xml; charset=utf-8"@[12] == 'x');
    assert("application/octet-stream"@[12] == 'o');
    assert("html"@[0] == 'h' && "css"@[0] == 'c' && "js"@[0] == 'j' && "png"@[0] == 'p');
    assert("jpg"@[0] == 'j' && "jpeg"@[0] == 'j' && "svg"@[0] == 's' && "xml"@[0] == 'x');
    assert("txt"@[0] == 't' && "js"@[1] == 's' && "jpg"@[1] == 'p' && "jpeg"@[1] == 'p');
    assert("jpg"@.len() == 3 && "jpeg"@.len() == 4);
}

} // verus!
