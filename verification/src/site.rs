//! The home page, the archive, the post pages and the sitemap.

use vstd::prelude::*;
use crate::post::{post_views, Post, PostView};
use crate::slug::{date_path, link_of, slug_of};
use crate::template::{render_default, render_post, rendered_default, rendered_post, TemplateError, Templates};
use crate::text::{
    chars_of, contains, lemma_find_from, occurs_at, replace_from, contains_pat, ends_with, join, join_with, lines, lines_of, push_all,
    push_str, replace, replace_all, same_text, string_of, text_result, views,
};

verus! {

/// The lines before the first one that holds `<!--`.
pub open spec fn lines_before_comment(ls: Seq<Seq<char>>) -> Seq<Seq<char>>
    decreases ls.len(),
{
    if ls.len() == 0 || contains_pat(ls[0], "<!--"@) {
        seq![]
    } else {
        seq![ls[0]] + lines_before_comment(ls.drop_first())
    }
}

/// The extract of a post on the home page: its lines up to the first `<!--`, joined, with
/// headings moved one level down (`h3` to `h4`, then `h2` to `h3`, then `h1` to `h2`).
pub open spec fn extract_of(content: Seq<char>) -> Seq<char> {
    replace_all(
        replace_all(
            replace_all(join(lines_before_comment(lines_of(content)), "\n"@), "h3"@, "h4"@),
            "h2"@,
            "h3"@,
        ),
        "h1"@,
        "h2"@,
    )
}

/// The home page entry of a post.
pub open spec fn home_entry(p: PostView) -> Seq<char> {
    "<a href='"@ + p.link + "'><h2>"@ + p.title + "</h2></a>\n<h3>"@ + p.date + "</h3>\n"@
        + extract_of(p.content) + "</code></pre></ul></ol></p>\n"@ + "<br/><p><a href='"@ + p.link
        + "'>Read more</a></p><hr/>"@
}

/// The archive entry of a post.
pub open spec fn archive_entry(p: PostView) -> Seq<char> {
    "<table>\n <tr>\n  <td>\n   <time datetime=\""@ + p.date + "\" pubdate=\"true\">"@ + p.date
        + "</time>\n  </td>\n  <td>\n   <a href=\""@ + p.link + "\">"@ + p.title
        + "</a>\n  </td>\n </tr>\n</table>\n"@
}

/// The home page content: the entries of the posts, in order.
pub open spec fn home_of(posts: Seq<PostView>) -> Seq<char>
    decreases posts.len(),
{
    if posts.len() == 0 {
        seq![]
    } else {
        home_of(posts.drop_last()) + home_entry(posts.last())
    }
}

/// The archive page content: the entries of the posts, in order.
pub open spec fn archive_of(posts: Seq<PostView>) -> Seq<char>
    decreases posts.len(),
{
    if posts.len() == 0 {
        seq![]
    } else {
        archive_of(posts.drop_last()) + archive_entry(posts.last())
    }
}

/// The lines of `content` before the first that holds `<!--`, joined and with headings
/// moved one level down.
pub fn post_extract(content: &str) -> (extract: Vec<char>)
    ensures
        extract@ == extract_of(content@),
{
    proof {
        reveal_strlit("h1");
        reveal_strlit("h2");
        reveal_strlit("h3");
    }
    let all = lines(chars_of(content).as_slice());
    let ghost ls = views(all@);
    let marker = chars_of("<!--");
    let mut i: usize = 0;
    assert(ls.skip(0) == ls);
    assert(ls.take(0) == Seq::<Seq<char>>::empty());
    while i < all.len() && !contains(all[i].as_slice(), marker.as_slice())
        invariant
            i <= all.len(),
            ls == views(all@),
            marker@ == "<!--"@,
            lines_before_comment(ls) == ls.take(i as int) + lines_before_comment(ls.skip(i as int)),
        decreases all.len() - i,
    {
        assert(ls.skip(i as int)[0] == all@[i as int]@);
        assert(ls.skip(i as int).drop_first() == ls.skip(i + 1));
        assert(ls.take(i + 1) == ls.take(i as int) + seq![ls[i as int]]);
        i = i + 1;
    }
    if i < all.len() {
        assert(ls.skip(i as int)[0] == all@[i as int]@);
    } else {
        assert(ls.skip(i as int) == Seq::<Seq<char>>::empty());
    }
    let mut kept: Vec<Vec<char>> = Vec::new();
    let mut j: usize = 0;
    while j < i
        invariant
            j <= i <= all.len(),
            ls == views(all@),
            views(kept@) == ls.take(j as int),
        decreases i - j,
    {
        let mut line: Vec<char> = Vec::new();
        push_all(&mut line, all[j].as_slice());
        kept.push(line);
        assert(ls.take(j + 1) == ls.take(j as int).push(ls[j as int]));
        assert(views(kept@) == ls.take(j + 1));
        j = j + 1;
    }
    let joined = join_with(&kept, chars_of("\n").as_slice());
    let h3 = replace(joined.as_slice(), chars_of("h3").as_slice(), chars_of("h4").as_slice());
    let h2 = replace(h3.as_slice(), chars_of("h2").as_slice(), chars_of("h3").as_slice());
    replace(h2.as_slice(), chars_of("h1").as_slice(), chars_of("h2").as_slice())
}

/// The content of the home page.
pub fn home_content(posts: &Vec<Post>) -> (content: String)
    ensures
        content@ == home_of(post_views(posts@)),
{
    let ghost ps = post_views(posts@);
    let mut out: Vec<char> = Vec::new();
    let mut i: usize = 0;
    while i < posts.len()
        invariant
            i <= posts.len(),
            ps == post_views(posts@),
            out@ == home_of(ps.take(i as int)),
        decreases posts.len() - i,
    {
        assert(ps.take(i + 1).drop_last() == ps.take(i as int));
        assert(ps.take(i + 1).last() == posts@[i as int]@);
        let p = &posts[i];
        let mut entry: Vec<char> = Vec::new();
        push_str(&mut entry, "<a href='");
        push_str(&mut entry, p.link.as_str());
        push_str(&mut entry, "'><h2>");
        push_str(&mut entry, p.title.as_str());
        push_str(&mut entry, "</h2></a>\n<h3>");
        push_str(&mut entry, p.date.as_str());
        push_str(&mut entry, "</h3>\n");
        push_all(&mut entry, post_extract(p.content.as_str()).as_slice());
        push_str(&mut entry, "</code></pre></ul></ol></p>\n");
        push_str(&mut entry, "<br/><p><a href='");
        push_str(&mut entry, p.link.as_str());
        push_str(&mut entry, "'>Read more</a></p><hr/>");
        push_all(&mut out, entry.as_slice());
        i = i + 1;
    }
    assert(ps.take(posts.len() as int) == ps);
    string_of(&out)
}

/// The content of the archive page.
pub fn archive_content(posts: &Vec<Post>) -> (content: String)
    ensures
        content@ == archive_of(post_views(posts@)),
{
    let ghost ps = post_views(posts@);
    let mut out: Vec<char> = Vec::new();
    let mut i: usize = 0;
    while i < posts.len()
        invariant
            i <= posts.len(),
            ps == post_views(posts@),
            out@ == archive_of(ps.take(i as int)),
        decreases posts.len() - i,
    {
        assert(ps.take(i + 1).drop_last() == ps.take(i as int));
        assert(ps.take(i + 1).last() == posts@[i as int]@);
        let p = &posts[i];
        let mut entry: Vec<char> = Vec::new();
        push_str(&mut entry, "<table>\n <tr>\n  <td>\n   <time datetime=\"");
        push_str(&mut entry, p.date.as_str());
        push_str(&mut entry, "\" pubdate=\"true\">");
        push_str(&mut entry, p.date.as_str());
        push_str(&mut entry, "</time>\n  </td>\n  <td>\n   <a href=\"");
        push_str(&mut entry, p.link.as_str());
        push_str(&mut entry, "\">");
        push_str(&mut entry, p.title.as_str());
        push_str(&mut entry, "</a>\n  </td>\n </tr>\n</table>\n");
        push_all(&mut out, entry.as_slice());
        i = i + 1;
    }
    assert(ps.take(posts.len() as int) == ps);
    string_of(&out)
}


/// The home page, `index.html`: the default template titled with the site's title, holding
/// the home page content.
pub fn home_page(templates: &Templates, site_title: &str, posts: &Vec<Post>) -> (r: Result<String, TemplateError>)
    ensures
        text_result(r) == rendered_default(templates.default@, site_title@, home_of(post_views(posts@))),
{
    let content = home_content(posts);
    render_default(templates.default.as_str(), site_title, content.as_str())
}

/// The archive page, `archive.html`.
pub fn archive_page(templates: &Templates, site_title: &str, posts: &Vec<Post>) -> (r: Result<String, TemplateError>)
    ensures
        text_result(r) == rendered_default(templates.default@, site_title@, archive_of(post_views(posts@))),
{
    let content = archive_content(posts);
    render_default(templates.default.as_str(), site_title, content.as_str())
}

/// The page of a post: the default template titled with the post's title, holding the post
/// template filled in with the post.
pub fn post_page(templates: &Templates, post: &Post) -> (r: Result<String, TemplateError>)
    ensures
        text_result(r) == rendered_default(
            templates.default@,
            post.title@,
            rendered_post(templates.post@, post.title@, post.date@, post.content@, post.link@),
        ),
{
    let body = render_post(templates.post.as_str(), post);
    render_default(templates.default.as_str(), post.title.as_str(), body.as_str())
}

/// The sitemap line of a page: the site URL, then `/` and the page's path below the site's
/// root, with a final `index.html` removed.
pub open spec fn sitemap_entry_of(url: Seq<char>, relative: Seq<char>) -> Seq<char> {
    let path = "/"@ + relative;
    if "index.html"@.is_suffix_of(path) {
        url + path.take(path.len() - "index.html"@.len())
    } else {
        url + path
    }
}

/// The sitemap lines of the pages, in order.
pub open spec fn sitemap_entries(url: Seq<char>, pages: Seq<Seq<char>>) -> Seq<Seq<char>> {
    pages.map_values(|r: Seq<char>| sitemap_entry_of(url, r))
}

/// The sitemap, `sitemap.txt`: one line per page, each ended by a newline.
pub open spec fn sitemap_of(url: Seq<char>, pages: Seq<Seq<char>>) -> Seq<char> {
    join(sitemap_entries(url, pages), "\n"@) + "\n"@
}

/// The sitemap line of the page at `relative` (its path below the site's root, with `/`
/// between components).
pub fn sitemap_entry(url: &str, relative: &str) -> (entry: Vec<char>)
    ensures
        entry@ == sitemap_entry_of(url@, relative@),
{
    let mut path = chars_of("/");
    push_str(&mut path, relative);
    let index = chars_of("index.html");
    let mut entry = chars_of(url);
    if ends_with(path.as_slice(), index.as_slice()) {
        let keep = path.len() - index.len();
        crate::text::push_range(&mut entry, path.as_slice(), 0, keep);
        assert(path@.subrange(0, keep as int) == path@.take(keep as int));
    } else {
        push_all(&mut entry, path.as_slice());
    }
    entry
}

/// The sitemap of the pages at the given paths, in the given order.
pub fn sitemap(url: &str, pages: &Vec<String>) -> (text: String)
    ensures
        text@ == sitemap_of(url@, pages@.map_values(|p: String| p@)),
{
    let ghost rs = pages@.map_values(|p: String| p@);
    let mut entries: Vec<Vec<char>> = Vec::new();
    let mut i: usize = 0;
    while i < pages.len()
        invariant
            i <= pages.len(),
            rs == pages@.map_values(|p: String| p@),
            views(entries@) == sitemap_entries(url@, rs.take(i as int)),
        decreases pages.len() - i,
    {
        let e = sitemap_entry(url, pages[i].as_str());
        entries.push(e);
        assert(sitemap_entries(url@, rs.take(i + 1)) == sitemap_entries(url@, rs.take(i as int)).push(
            sitemap_entry_of(url@, rs[i as int]),
        ));
        assert(views(entries@) == sitemap_entries(url@, rs.take(i + 1)));
        i = i + 1;
    }
    assert(rs.take(pages.len() as int) == rs);
    let mut text = join_with(&entries, chars_of("\n").as_slice());
    push_str(&mut text, "\n");
    string_of(&text)
}


/// A post's page lies where its link points: the page is written at the path made of its
/// date path, its slug and `index.html`, and that path, after a `/`, is the link followed by
/// `index.html`.  The sitemap therefore lists the page as the site URL followed by the link.
pub proof fn lemma_post_page_at_link(url: Seq<char>, date: Seq<char>, title: Seq<char>)
    ensures
        "/"@ + join(seq![date_path(date), slug_of(title), "index.html"@], "/"@) == link_of(date, title)
            + "index.html"@,
        sitemap_entry_of(url, join(seq![date_path(date), slug_of(title), "index.html"@], "/"@))
            == url + link_of(date, title),
{
    let parts = seq![date_path(date), slug_of(title), "index.html"@];
    assert(parts.drop_last().drop_last() == seq![date_path(date)]);
    assert(parts.drop_last().last() == slug_of(title));
    let rel = join(parts, "/"@);
    assert(join(parts.drop_last().drop_last(), "/"@) == date_path(date));
    assert(join(parts.drop_last(), "/"@) == date_path(date) + "/"@ + slug_of(title));
    assert(rel == date_path(date) + "/"@ + slug_of(title) + "/"@ + "index.html"@);
    let path = "/"@ + rel;
    let link = link_of(date, title);
    assert(path == link + "index.html"@);
    assert("index.html"@.is_suffix_of(path)) by {
        assert(path.subrange(path.len() - "index.html"@.len(), path.len() as int) == "index.html"@);
    }
    assert(path.take(path.len() - "index.html"@.len()) == link);
}


/// Whether a file in `pages/` becomes a page: every file whose name does not start with `.`.
pub fn is_listed_page(name: &str) -> (listed: bool)
    ensures
        listed == !(name@.len() > 0 && name@[0] == '.'),
{
    let chars = chars_of(name);
    !(chars.len() > 0 && chars[0] == '.')
}

/// The name of the page made from the file `name` in `pages/`: the name followed by `.html`.
pub fn page_file_name(name: &str) -> (file: String)
    ensures
        file@ == name@ + ".html"@,
{
    let mut out = chars_of(name);
    push_str(&mut out, ".html");
    string_of(&out)
}


/// An entry of a directory listing, as the sitemap walk sees it.
pub struct ListingEntry {
    /// Whether the entry is a directory.
    pub is_dir: bool,
    /// Whether the entry is a regular file.
    pub is_file: bool,
    /// The extension of the entry's name, if it has one.
    pub extension: Option<String>,
}

/// Whether an entry is a page the sitemap lists: a regular file (and no directory) with the
/// extension `html`.
pub open spec fn is_listed_html(e: ListingEntry) -> bool {
    !e.is_dir && e.is_file && match e.extension {
        Some(x) => x@ == "html"@,
        None => false,
    }
}

/// The positions in a listing of the pages the sitemap lists, in the listing's order.
pub open spec fn html_positions(entries: Seq<ListingEntry>) -> Seq<int>
    decreases entries.len(),
{
    if entries.len() == 0 {
        seq![]
    } else {
        html_positions(entries.drop_last()) + if is_listed_html(entries.last()) {
            seq![entries.len() - 1]
        } else {
            seq![]
        }
    }
}

/// The positions in a listing of its directories, in the listing's order.
pub open spec fn dir_positions(entries: Seq<ListingEntry>) -> Seq<int>
    decreases entries.len(),
{
    if entries.len() == 0 {
        seq![]
    } else {
        dir_positions(entries.drop_last()) + if entries.last().is_dir {
            seq![entries.len() - 1]
        } else {
            seq![]
        }
    }
}

/// Splits a directory listing into the pages the sitemap lists, which come first, and the
/// directories to walk after them, each given by its position in the listing and in the
/// listing's order.
pub fn split_listing(entries: &Vec<ListingEntry>) -> (r: (Vec<usize>, Vec<usize>))
    ensures
        r.0@.map_values(|k: usize| k as int) == html_positions(entries@),
        r.1@.map_values(|k: usize| k as int) == dir_positions(entries@),
{
    let mut pages: Vec<usize> = Vec::new();
    let mut dirs: Vec<usize> = Vec::new();
    let mut i: usize = 0;
    while i < entries.len()
        invariant
            i <= entries.len(),
            pages@.map_values(|k: usize| k as int) == html_positions(entries@.take(i as int)),
            dirs@.map_values(|k: usize| k as int) == dir_positions(entries@.take(i as int)),
        decreases entries.len() - i,
    {
        let e = &entries[i];
        assert(entries@.take(i + 1).drop_last() == entries@.take(i as int));
        assert(entries@.take(i + 1).last() == *e);
        let ghost before_pages = pages@.map_values(|k: usize| k as int);
        let ghost before_dirs = dirs@.map_values(|k: usize| k as int);
        if e.is_dir {
            dirs.push(i);
            assert(dirs@.map_values(|k: usize| k as int) == before_dirs.push(i as int));
        } else if e.is_file {
            let html = match &e.extension {
                Some(x) => same_text(x.as_str(), "html"),
                None => false,
            };
            if html {
                pages.push(i);
                assert(pages@.map_values(|k: usize| k as int) == before_pages.push(i as int));
            }
        }
        i = i + 1;
    }
    assert(entries@.take(entries.len() as int) == entries@);
    (pages, dirs)
}

/// The lines kept for an extract are the longest run of lines at the start that hold no
/// `<!--`: a prefix of the lines, none of whose lines holds `<!--`, and which ends either
/// at the end of the lines or just before a line that holds `<!--`.  Empty lines are kept
/// like any other.
pub proof fn lemma_lines_before_comment(ls: Seq<Seq<char>>)
    ensures
        lines_before_comment(ls).len() <= ls.len(),
        lines_before_comment(ls) == ls.take(lines_before_comment(ls).len() as int),
        forall|i: int|
            0 <= i < lines_before_comment(ls).len() ==> !contains_pat(#[trigger] ls[i], "<!--"@),
        lines_before_comment(ls).len() == ls.len() || contains_pat(
            ls[lines_before_comment(ls).len() as int],
            "<!--"@,
        ),
    decreases ls.len(),
{
    if ls.len() > 0 && !contains_pat(ls[0], "<!--"@) {
        let rest = ls.drop_first();
        lemma_lines_before_comment(rest);
        let k = lines_before_comment(rest).len() as int;
        assert(ls.take(k + 1) == seq![ls[0]] + rest.take(k));
        assert forall|i: int| 0 <= i < k + 1 implies !contains_pat(#[trigger] ls[i], "<!--"@) by {
            if i > 0 {
                assert(ls[i] == rest[i - 1]);
            }
        }
        if k + 1 < ls.len() {
            assert(ls[k + 1] == rest[k]);
        }
    } else {
        assert(ls.take(0) == Seq::<Seq<char>>::empty());
    }
}

/// Replacing a pattern that does not occur from `i` on leaves the text from `i` on as it is.
proof fn lemma_replace_absent(s: Seq<char>, p: Seq<char>, r: Seq<char>, i: int)
    requires
        0 <= i <= s.len(),
        forall|j: int| i <= j ==> !occurs_at(s, p, j),
    ensures
        replace_from(s, p, r, i) == s.skip(i),
    decreases s.len() - i,
{
    if p.len() == 0 || i + p.len() > s.len() {
    } else {
        lemma_replace_absent(s, p, r, i + 1);
        assert(seq![s[i]] + s.skip(i + 1) == s.skip(i));
    }
}

/// Replacing a pattern that does not occur leaves the text as it is.
proof fn lemma_replace_all_absent(s: Seq<char>, p: Seq<char>, r: Seq<char>)
    requires
        !contains_pat(s, p),
    ensures
        replace_all(s, p, r) == s,
{
    lemma_find_from(s, p, 0);
    lemma_replace_absent(s, p, r, 0);
    assert(s.skip(0) == s);
}

/// Content without a `<!--` line and without headings to move: its extract is all its
/// lines, empty ones included, joined by newlines.
pub proof fn lemma_extract_without_fold(content: Seq<char>)
    requires
        forall|i: int| 0 <= i < lines_of(content).len() ==> !contains_pat(
            #[trigger] lines_of(content)[i],
            "<!--"@,
        ),
        !contains_pat(join(lines_of(content), "\n"@), "h1"@),
        !contains_pat(join(lines_of(content), "\n"@), "h2"@),
        !contains_pat(join(lines_of(content), "\n"@), "h3"@),
    ensures
        extract_of(content) == join(lines_of(content), "\n"@),
{
    let ls = lines_of(content);
    lemma_lines_before_comment(ls);
    assert(lines_before_comment(ls) == ls);
    let j = join(ls, "\n"@);
    lemma_replace_all_absent(j, "h3"@, "h4"@);
    lemma_replace_all_absent(j, "h2"@, "h3"@);
    lemma_replace_all_absent(j, "h1"@, "h2"@);
}

} // verus!
