//! The RSS and Atom feeds.

use vstd::prelude::*;
use crate::config::SiteConfig;
use crate::dates::{
    atom_date, atom_date_of, chrono_parsed_date, post_date_format, rss_date, rss_date_of, DateError,
};
use crate::html::{escaped, escape_html};
use crate::post::{post_views, Post, PostView};
use crate::slug::link_of;
use crate::text::{
    chars_of, push_all, push_str, replace_char_set, replace_chars, replace_n, replacen, string_of,
    strip_prefix, strip_prefix_chars, strip_suffix, strip_suffix_chars, text_result,
};

verus! {

/// Why a feed could not be written.
#[derive(Clone, Copy, Debug, PartialEq, Eq, Structural)]
pub enum FeedError {
    /// A post's date could not be read or written.
    Date(DateError),
    /// The Atom feed needs at least one post.
    NoPosts,
}

/// The Atom id of a page: `urn:`, the site part (`url_id`), then `:`, then the page URL with one trailing `/` and
/// the site URL in front removed and each `/` made `-`.
pub open spec fn id_of(url: Seq<char>, input: Seq<char>) -> Seq<char> {
    let trimmed = match strip_suffix(input, "/"@) {
        Some(t) => t,
        None => input,
    };
    let rest = match strip_prefix(trimmed, url) {
        Some(t) => t,
        None => trimmed,
    };
    "urn:"@ + url_id(url) + ":"@ + replace_chars(rest, seq!['/'], "-"@)
}

/// The site part of an Atom id: the site URL with `:` removed, its first `//` made `/`,
/// and each `/` or `.` made `-`.
pub open spec fn url_id(url: Seq<char>) -> Seq<char> {
    replace_chars(replacen(replace_chars(url, seq![':'], seq![]), "//"@, "/"@, 1), seq!['/', '.'], "-"@)
}

/// Makes the Atom id of the page at `input` on the site at `url`.
pub fn idify(url: &str, input: &str) -> (id: String)
    ensures
        id@ == id_of(url@, input@),
{
    proof {
        reveal_strlit("//");
    }
    let url_chars = chars_of(url);
    let input_chars = chars_of(input);
    let slash = chars_of("/");
    let trimmed = match strip_suffix_chars(input_chars.as_slice(), slash.as_slice()) {
        Some(t) => t,
        None => input_chars,
    };
    let rest = match strip_prefix_chars(trimmed.as_slice(), url_chars.as_slice()) {
        Some(t) => t,
        None => trimmed,
    };
    let colon = [':'];
    let slash_only = ['/'];
    let slash_dot = ['/', '.'];
    assert(colon@ == seq![':']);
    assert(slash_only@ == seq!['/']);
    assert(slash_dot@ == seq!['/', '.']);
    let nothing: Vec<char> = Vec::new();
    let dash = chars_of("-");
    let no_colon = replace_char_set(url_chars.as_slice(), &colon, nothing.as_slice());
    assert(nothing@ == Seq::<char>::empty());
    let one_slash = replace_n(no_colon.as_slice(), chars_of("//").as_slice(), slash.as_slice(), 1);
    let id_url = replace_char_set(one_slash.as_slice(), &slash_dot, dash.as_slice());
    let path = replace_char_set(rest.as_slice(), &slash_only, dash.as_slice());
    let mut out: Vec<char> = Vec::new();
    push_str(&mut out, "urn:");
    push_all(&mut out, id_url.as_slice());
    push_str(&mut out, ":");
    push_all(&mut out, path.as_slice());
    string_of(&out)
}

/// The opening of the RSS feed.
pub open spec fn rss_head(title: Seq<char>, url: Seq<char>, tagline: Seq<char>) -> Seq<char> {
    "<rss version=\"2.0\">\n<channel>\n<title>"@ + title + "</title>\n<link>"@ + url
        + "</link>\n<description>"@ + tagline + "</description>\n"@
}

/// The RSS item of a post, given its date as the feed writes it.
pub open spec fn rss_item(url: Seq<char>, p: PostView, date: Seq<char>) -> Seq<char> {
    "<item>\n<title>"@ + p.title + "</title>\n<link>"@ + url + p.link
        + "</link>\n<description></description>\n<pubDate>"@ + date + "</pubDate>\n<guid>"@
        + p.link + "</guid>\n</item>\n"@
}

/// The RSS items of the posts, in order, or the error of the first post whose date fails.
pub open spec fn rss_items(url: Seq<char>, posts: Seq<PostView>) -> Result<Seq<char>, DateError>
    decreases posts.len(),
{
    if posts.len() == 0 {
        Ok(seq![])
    } else {
        match rss_items(url, posts.drop_last()) {
            Err(e) => Err(e),
            Ok(prev) => match rss_date_of(posts.last().date) {
                Err(e) => Err(e),
                Ok(d) => Ok(prev + rss_item(url, posts.last(), d)),
            },
        }
    }
}

/// The RSS feed of the posts.
pub open spec fn rss_of(site_title: Seq<char>, url: Seq<char>, tagline: Seq<char>, posts: Seq<PostView>) -> Result<
    Seq<char>,
    DateError,
> {
    match rss_items(url, posts) {
        Err(e) => Err(e),
        Ok(items) => Ok(rss_head(site_title, url, tagline) + items + "</channel></rss>"@),
    }
}

/// Whether `chrono` reads the date of every post as a `%Y-%m-%d` date.
pub open spec fn all_dates_read(posts: Seq<PostView>) -> bool {
    forall|i: int|
        0 <= i < posts.len() ==> (#[trigger] chrono_parsed_date(posts[i].date, post_date_format()))
            is Some
}

/// Writes the RSS feed, `feeds/all.rss.xml`.  It is written whenever every post's date is
/// read.
pub fn rss_feed(site: &SiteConfig, posts: &Vec<Post>) -> (r: Result<String, DateError>)
    ensures
        text_result(r) == rss_of(site.title@, site.url@, site.tagline@, post_views(posts@)),
        all_dates_read(post_views(posts@)) ==> r is Ok,
{
    let ghost ps = post_views(posts@);
    let mut items: Vec<char> = Vec::new();
    let mut i: usize = 0;
    while i < posts.len()
        invariant
            i <= posts.len(),
            ps == post_views(posts@),
            rss_items(site.url@, ps.take(i as int)) == Ok::<Seq<char>, DateError>(items@),
        decreases posts.len() - i,
    {
        assert(ps.take(i + 1).drop_last() == ps.take(i as int));
        assert(ps.take(i + 1).last() == posts@[i as int]@);
        let p = &posts[i];
        let date = match rss_date(p.date.as_str()) {
            Ok(d) => d,
            Err(e) => {
                proof {
                    lemma_rss_items_fail(site.url@, ps, i as int + 1);
                    assert(ps[i as int].date == p.date@);
                    assert(chrono_parsed_date(ps[i as int].date, post_date_format()) is None);
                }
                return Err(e);
            },
        };
        let mut item: Vec<char> = Vec::new();
        push_str(&mut item, "<item>\n<title>");
        push_str(&mut item, p.title.as_str());
        push_str(&mut item, "</title>\n<link>");
        push_str(&mut item, site.url.as_str());
        push_str(&mut item, p.link.as_str());
        push_str(&mut item, "</link>\n<description></description>\n<pubDate>");
        push_str(&mut item, date.as_str());
        push_str(&mut item, "</pubDate>\n<guid>");
        push_str(&mut item, p.link.as_str());
        push_str(&mut item, "</guid>\n</item>\n");
        push_all(&mut items, item.as_slice());
        i = i + 1;
    }
    assert(ps.take(posts.len() as int) == ps);
    let mut feed: Vec<char> = Vec::new();
    push_str(&mut feed, "<rss version=\"2.0\">\n<channel>\n<title>");
    push_str(&mut feed, site.title.as_str());
    push_str(&mut feed, "</title>\n<link>");
    push_str(&mut feed, site.url.as_str());
    push_str(&mut feed, "</link>\n<description>");
    push_str(&mut feed, site.tagline.as_str());
    push_str(&mut feed, "</description>\n");
    push_all(&mut feed, items.as_slice());
    push_str(&mut feed, "</channel></rss>");
    Ok(string_of(&feed))
}

/// Once the items of a prefix fail, the items of every longer prefix fail the same way.
proof fn lemma_rss_items_fail(url: Seq<char>, ps: Seq<PostView>, k: int)
    requires
        0 < k <= ps.len(),
        rss_items(url, ps.take(k)) is Err,
    ensures
        rss_items(url, ps) == rss_items(url, ps.take(k)),
    decreases ps.len() - k,
{
    if k < ps.len() {
        assert(ps.take(k + 1).drop_last() == ps.take(k));
        lemma_rss_items_fail(url, ps, k + 1);
    } else {
        assert(ps.take(k) == ps);
    }
}

/// The Atom entry of a post, given its date as the feed writes it.
pub open spec fn atom_entry(url: Seq<char>, author: Seq<char>, p: PostView, date: Seq<char>) -> Seq<
    char,
> {
    "<entry>\n  <title type=\"text\">"@ + p.title + "</title>\n  <link rel=\"alternate\" href=\""@
        + url + p.link + "\" />\n  <id>"@ + id_of(url, url + p.link) + "</id>\n  <published>"@
        + date + "</published>\n  <updated>"@ + date + "</updated>\n  <author>\n   <name>"@
        + author + "</name>\n  </author>\n  <content type=\"html\">\n"@ + escaped(p.content)
        + "\n</content></entry>\n"@
}

/// The Atom entries of the posts, in order, or the error of the first post whose date fails.
pub open spec fn atom_entries(url: Seq<char>, author: Seq<char>, posts: Seq<PostView>) -> Result<
    Seq<char>,
    DateError,
>
    decreases posts.len(),
{
    if posts.len() == 0 {
        Ok(seq![])
    } else {
        match atom_entries(url, author, posts.drop_last()) {
            Err(e) => Err(e),
            Ok(prev) => match atom_date_of(posts.last().date) {
                Err(e) => Err(e),
                Ok(d) => Ok(prev + atom_entry(url, author, posts.last(), d)),
            },
        }
    }
}

/// The opening of the Atom feed, given the site's id and the date of the newest post.
pub open spec fn atom_head(
    title: Seq<char>,
    url: Seq<char>,
    tagline: Seq<char>,
    root_id: Seq<char>,
    updated: Seq<char>,
) -> Seq<char> {
    "<?xml version=\"1.0\" encoding=\"utf-8\"?>\n<feed xmlns=\"http://www.w3.org/2005/Atom\" xml:lang=\"en\">\n<title type=\"text\">"@
        + title + ": "@ + tagline + "</title>\n<link rel=\"self\" href=\""@ + url
        + "/feeds/all.atom.xml\" />\n<link href=\""@ + url + "/index.html\" />\n<id>"@ + root_id
        + "</id>\n<updated>"@ + updated + "</updated>\n"@
}

/// The Atom feed of the posts: an error without posts; otherwise updated at the date of the
/// first post, with the site's id made from its `/index.html` page.
pub open spec fn atom_of(
    title: Seq<char>,
    url: Seq<char>,
    tagline: Seq<char>,
    author: Seq<char>,
    posts: Seq<PostView>,
) -> Result<Seq<char>, FeedError> {
    if posts.len() == 0 {
        Err(FeedError::NoPosts)
    } else {
        match atom_date_of(posts[0].date) {
            Err(e) => Err(FeedError::Date(e)),
            Ok(updated) => match atom_entries(url, author, posts) {
                Err(e) => Err(FeedError::Date(e)),
                Ok(entries) => Ok(
                    atom_head(title, url, tagline, id_of(url, url + "/index.html"@), updated)
                        + entries + "</feed>"@,
                ),
            },
        }
    }
}

/// Once the entries of a prefix fail, the entries of every longer prefix fail the same way.
proof fn lemma_atom_entries_fail(url: Seq<char>, author: Seq<char>, ps: Seq<PostView>, k: int)
    requires
        0 < k <= ps.len(),
        atom_entries(url, author, ps.take(k)) is Err,
    ensures
        atom_entries(url, author, ps) == atom_entries(url, author, ps.take(k)),
    decreases ps.len() - k,
{
    if k < ps.len() {
        assert(ps.take(k + 1).drop_last() == ps.take(k));
        lemma_atom_entries_fail(url, author, ps, k + 1);
    } else {
        assert(ps.take(k) == ps);
    }
}

/// Writes the Atom feed, `feeds/all.atom.xml`.  It is written whenever there is a post and
/// every post's date is read.
pub fn atom_feed(site: &SiteConfig, posts: &Vec<Post>) -> (r: Result<String, FeedError>)
    ensures
        text_result(r) == atom_of(site.title@, site.url@, site.tagline@, site.author@, post_views(posts@)),
        posts.len() > 0 && all_dates_read(post_views(posts@)) ==> r is Ok,
{
    let ghost ps = post_views(posts@);
    if posts.len() == 0 {
        return Err(FeedError::NoPosts);
    }
    assert(ps[0] == posts@[0]@);
    let updated = match atom_date(posts[0].date.as_str()) {
        Ok(d) => d,
        Err(e) => {
            proof {
                assert(chrono_parsed_date(ps[0].date, post_date_format()) is None);
            }
            return Err(FeedError::Date(e));
        },
    };
    let mut index_url = chars_of(site.url.as_str());
    push_str(&mut index_url, "/index.html");
    let root_id = idify(site.url.as_str(), string_of(&index_url).as_str());
    let mut entries: Vec<char> = Vec::new();
    let mut i: usize = 0;
    while i < posts.len()
        invariant
            i <= posts.len(),
            ps == post_views(posts@),
            ps.len() > 0,
            atom_date_of(ps[0].date) == Ok::<Seq<char>, DateError>(updated@),
            atom_entries(site.url@, site.author@, ps.take(i as int)) == Ok::<Seq<char>, DateError>(
                entries@,
            ),
        decreases posts.len() - i,
    {
        assert(ps.take(i + 1).drop_last() == ps.take(i as int));
        assert(ps.take(i + 1).last() == posts@[i as int]@);
        let p = &posts[i];
        let date = match atom_date(p.date.as_str()) {
            Ok(d) => d,
            Err(e) => {
                proof {
                    lemma_atom_entries_fail(site.url@, site.author@, ps, i as int + 1);
                    assert(ps[i as int].date == p.date@);
                    assert(chrono_parsed_date(ps[i as int].date, post_date_format()) is None);
                }
                return Err(FeedError::Date(e));
            },
        };
        let mut absolute = chars_of(site.url.as_str());
        push_str(&mut absolute, p.link.as_str());
        let absolute = string_of(&absolute);
        let mut entry: Vec<char> = Vec::new();
        push_str(&mut entry, "<entry>\n  <title type=\"text\">");
        push_str(&mut entry, p.title.as_str());
        push_str(&mut entry, "</title>\n  <link rel=\"alternate\" href=\"");
        push_str(&mut entry, site.url.as_str());
        push_str(&mut entry, p.link.as_str());
        push_str(&mut entry, "\" />\n  <id>");
        push_str(&mut entry, idify(site.url.as_str(), absolute.as_str()).as_str());
        push_str(&mut entry, "</id>\n  <published>");
        push_str(&mut entry, date.as_str());
        push_str(&mut entry, "</published>\n  <updated>");
        push_str(&mut entry, date.as_str());
        push_str(&mut entry, "</updated>\n  <author>\n   <name>");
        push_str(&mut entry, site.author.as_str());
        push_str(&mut entry, "</name>\n  </author>\n  <content type=\"html\">\n");
        push_str(&mut entry, escape_html(p.content.as_str()).as_str());
        push_str(&mut entry, "\n</content></entry>\n");
        push_all(&mut entries, entry.as_slice());
        i = i + 1;
    }
    assert(ps.take(posts.len() as int) == ps);
    let mut feed: Vec<char> = Vec::new();
    push_str(
        &mut feed,
        "<?xml version=\"1.0\" encoding=\"utf-8\"?>\n<feed xmlns=\"http://www.w3.org/2005/Atom\" xml:lang=\"en\">\n<title type=\"text\">",
    );
    push_str(&mut feed, site.title.as_str());
    push_str(&mut feed, ": ");
    push_str(&mut feed, site.tagline.as_str());
    push_str(&mut feed, "</title>\n<link rel=\"self\" href=\"");
    push_str(&mut feed, site.url.as_str());
    push_str(&mut feed, "/feeds/all.atom.xml\" />\n<link href=\"");
    push_str(&mut feed, site.url.as_str());
    push_str(&mut feed, "/index.html\" />\n<id>");
    push_str(&mut feed, root_id.as_str());
    push_str(&mut feed, "</id>\n<updated>");
    push_str(&mut feed, updated.as_str());
    push_str(&mut feed, "</updated>\n");
    push_all(&mut feed, entries.as_slice());
    push_str(&mut feed, "</feed>");
    Ok(string_of(&feed))
}

/// The id of a page on the site ends with the page's path below the site URL, without its
/// final `/` and with every `/` made `-`.  In particular the id of a post's entry is made
/// from the post's link.
pub proof fn lemma_page_id(url: Seq<char>, path: Seq<char>)
    requires
        path.len() > 0,
        path.last() == '/',
    ensures
        id_of(url, url + path) == "urn:"@ + url_id(url) + ":"@ + replace_chars(
            path.drop_last(),
            seq!['/'],
            "-"@,
        ),
{
    reveal_strlit("/");
    let input = url + path;
    assert("/"@.is_suffix_of(input)) by {
        assert(input[input.len() - 1] == '/');
    }
    let trimmed = input.take(input.len() - 1);
    assert(trimmed == url + path.drop_last());
    assert(url.is_prefix_of(trimmed));
    assert(trimmed.skip(url.len() as int) == path.drop_last());
}

/// The link of every post ends with `/`, so its entry's id is made from the link as
/// `lemma_page_id` says.
pub proof fn lemma_post_entry_id(url: Seq<char>, date: Seq<char>, title: Seq<char>)
    ensures
        id_of(url, url + link_of(date, title)) == "urn:"@ + url_id(url) + ":"@ + replace_chars(
            link_of(date, title).drop_last(),
            seq!['/'],
            "-"@,
        ),
{
    reveal_strlit("/");
    lemma_page_id(url, link_of(date, title));
}

/// The RSS items of one post: its item, dated with its own date, or the error of its date.
pub proof fn lemma_rss_items_single(url: Seq<char>, p: PostView)
    ensures
        rss_items(url, seq![p]) == match rss_date_of(p.date) {
            Ok(d) => Ok::<Seq<char>, DateError>(rss_item(url, p, d)),
            Err(e) => Err(e),
        },
{
    assert(seq![p].drop_last() == Seq::<PostView>::empty());
    assert(seq![p].last() == p);
    assert(rss_items(url, seq![p].drop_last()) == Ok::<Seq<char>, DateError>(seq![]));
    match rss_date_of(p.date) {
        Ok(d) => {
            assert(Seq::<char>::empty() + rss_item(url, p, d) == rss_item(url, p, d));
        },
        Err(_) => {},
    }
}

/// The RSS items of two lists of posts one after the other are the items of the first
/// followed by the items of the second; where either fails, the first failure is the
/// answer.  So each item is made from its own post alone, dated with that post's date.
pub proof fn lemma_rss_items_concat(url: Seq<char>, a: Seq<PostView>, b: Seq<PostView>)
    ensures
        rss_items(url, a + b) == match rss_items(url, a) {
            Err(e) => Err(e),
            Ok(x) => match rss_items(url, b) {
                Err(e) => Err(e),
                Ok(y) => Ok::<Seq<char>, DateError>(x + y),
            },
        },
    decreases b.len(),
{
    if b.len() == 0 {
        assert(a + b == a);
        match rss_items(url, a) {
            Ok(x) => {
                assert(x + Seq::<char>::empty() == x);
            },
            Err(_) => {},
        }
    } else {
        lemma_rss_items_concat(url, a, b.drop_last());
        assert((a + b).drop_last() == a + b.drop_last());
        assert((a + b).last() == b.last());
        match rss_items(url, a) {
            Ok(x) => match rss_items(url, b.drop_last()) {
                Ok(y) => match rss_date_of(b.last().date) {
                    Ok(d) => {
                        assert(x + y + rss_item(url, b.last(), d) == x + (y + rss_item(
                            url,
                            b.last(),
                            d,
                        )));
                    },
                    Err(_) => {},
                },
                Err(_) => {},
            },
            Err(_) => {},
        }
    }
}

/// The Atom entries of one post: its entry, dated with its own date, or the error of its
/// date.
pub proof fn lemma_atom_entries_single(url: Seq<char>, author: Seq<char>, p: PostView)
    ensures
        atom_entries(url, author, seq![p]) == match atom_date_of(p.date) {
            Ok(d) => Ok::<Seq<char>, DateError>(atom_entry(url, author, p, d)),
            Err(e) => Err(e),
        },
{
    assert(seq![p].drop_last() == Seq::<PostView>::empty());
    assert(seq![p].last() == p);
    assert(atom_entries(url, author, seq![p].drop_last()) == Ok::<Seq<char>, DateError>(seq![]));
    match atom_date_of(p.date) {
        Ok(d) => {
            assert(Seq::<char>::empty() + atom_entry(url, author, p, d) == atom_entry(
                url,
                author,
                p,
                d,
            ));
        },
        Err(_) => {},
    }
}

/// The Atom entries of two lists of posts one after the other are the entries of the first
/// followed by the entries of the second; where either fails, the first failure is the
/// answer.
pub proof fn lemma_atom_entries_concat(
    url: Seq<char>,
    author: Seq<char>,
    a: Seq<PostView>,
    b: Seq<PostView>,
)
    ensures
        atom_entries(url, author, a + b) == match atom_entries(url, author, a) {
            Err(e) => Err(e),
            Ok(x) => match atom_entries(url, author, b) {
                Err(e) => Err(e),
                Ok(y) => Ok::<Seq<char>, DateError>(x + y),
            },
        },
    decreases b.len(),
{
    if b.len() == 0 {
        assert(a + b == a);
        match atom_entries(url, author, a) {
            Ok(x) => {
                assert(x + Seq::<char>::empty() == x);
            },
            Err(_) => {},
        }
    } else {
        lemma_atom_entries_concat(url, author, a, b.drop_last());
        assert((a + b).drop_last() == a + b.drop_last());
        assert((a + b).last() == b.last());
        match atom_entries(url, author, a) {
            Ok(x) => match atom_entries(url, author, b.drop_last()) {
                Ok(y) => match atom_date_of(b.last().date) {
                    Ok(d) => {
                        assert(x + y + atom_entry(url, author, b.last(), d) == x + (y + atom_entry(
                            url,
                            author,
                            b.last(),
                            d,
                        )));
                    },
                    Err(_) => {},
                },
                Err(_) => {},
            },
            Err(_) => {},
        }
    }
}

/// The Atom feed is updated at the date of its first post, the newest one once the posts
/// are sorted: a written feed begins with the head that carries the Atom date of
/// `posts[0]`, and no later post's date.
pub proof fn lemma_atom_updated_at_first_post(
    title: Seq<char>,
    url: Seq<char>,
    tagline: Seq<char>,
    author: Seq<char>,
    posts: Seq<PostView>,
)
    requires
        atom_of(title, url, tagline, author, posts) is Ok,
    ensures
        posts.len() > 0,
        atom_date_of(posts[0].date) is Ok,
        atom_head(
            title,
            url,
            tagline,
            id_of(url, url + "/index.html"@),
            atom_date_of(posts[0].date)->Ok_0,
        ).is_prefix_of(atom_of(title, url, tagline, author, posts)->Ok_0),
{
    let h = atom_head(
        title,
        url,
        tagline,
        id_of(url, url + "/index.html"@),
        atom_date_of(posts[0].date)->Ok_0,
    );
    let f = atom_of(title, url, tagline, author, posts)->Ok_0;
    assert(f.subrange(0, h.len() as int) == h);
}

} // verus!
