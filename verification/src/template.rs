//! The page templates.
//!
//! The default template holds `<% $title %>` wherever the page title goes, and one content
//! block that starts with `<% unless ($subtemplate` and ends with the next `} %>`; the
//! block as a whole is replaced by the page's content.  The post template holds
//! `<% $title %>`, `<% $date %>`, `<% $content %>` and `<% $link %>`.

use vstd::prelude::*;
use crate::text::{chars_of, find, lemma_find_from, occurs_at, push_all, push_range, replace, replace_all, find_first, string_of, text_result};
use crate::post::Post;

verus! {

/// Why the default template could not be filled in.
#[derive(Clone, Copy, Debug, PartialEq, Eq, Structural)]
pub enum TemplateError {
    /// The template has no `<% unless ($subtemplate` opening a content block.
    NoContentBlock,
    /// The content block has no closing `} %>`.
    UnclosedContentBlock,
}

/// The two templates of a site.
pub struct Templates {
    /// The page layout, `templates/default.tmpl`.
    pub default: String,
    /// The body of a post page, `templates/post.tmpl`.
    pub post: String,
}

pub open spec fn title_marker() -> Seq<char> {
    "<% $title %>"@
}

pub open spec fn date_marker() -> Seq<char> {
    "<% $date %>"@
}

pub open spec fn content_marker() -> Seq<char> {
    "<% $content %>"@
}

pub open spec fn link_marker() -> Seq<char> {
    "<% $link %>"@
}

pub open spec fn block_open() -> Seq<char> {
    "<% unless ($subtemplate"@
}

pub open spec fn block_close() -> Seq<char> {
    "} %>"@
}

/// The default template filled in: the title put in for each title marker, then the
/// content block (from its opening to the end of the first `} %>` after it) replaced by
/// `content`.
pub open spec fn rendered_default(template: Seq<char>, title: Seq<char>, content: Seq<char>) -> Result<
    Seq<char>,
    TemplateError,
> {
    let t = replace_all(template, title_marker(), title);
    match find_first(t, block_open()) {
        None => Err(TemplateError::NoContentBlock),
        Some(start) => match find_first(t.skip(start), block_close()) {
            None => Err(TemplateError::UnclosedContentBlock),
            Some(rel) => Ok(t.take(start) + content + t.skip(start + rel + block_close().len())),
        },
    }
}

/// The post template filled in with the post's title, date, content and link, in this order.
pub open spec fn rendered_post(
    template: Seq<char>,
    title: Seq<char>,
    date: Seq<char>,
    content: Seq<char>,
    link: Seq<char>,
) -> Seq<char> {
    replace_all(
        replace_all(
            replace_all(replace_all(template, title_marker(), title), date_marker(), date),
            content_marker(),
            content,
        ),
        link_marker(),
        link,
    )
}

/// Fills in the default template with a page title and the page's content.
pub fn render_default(template: &str, title: &str, content: &str) -> (r: Result<String, TemplateError>)
    ensures
        text_result(r) == rendered_default(template@, title@, content@),
{
    proof {
        reveal_strlit("<% $title %>");
    }
    let template_chars = chars_of(template);
    let title_chars = chars_of(title);
    let marker = chars_of("<% $title %>");
    let t = replace(template_chars.as_slice(), marker.as_slice(), title_chars.as_slice());
    let open = chars_of("<% unless ($subtemplate");
    let close = chars_of("} %>");
    let start = match find(t.as_slice(), open.as_slice(), 0) {
        Some(start) => start,
        None => return Err(TemplateError::NoContentBlock),
    };
    proof {
        lemma_find_from(t@, block_open(), 0);
    }
    let rest = &t[start..t.len()];
    assert(rest@ == t@.skip(start as int));
    let rel = match find(rest, close.as_slice(), 0) {
        Some(rel) => rel,
        None => return Err(TemplateError::UnclosedContentBlock),
    };
    proof {
        lemma_find_from(rest@, block_close(), 0);
        assert(occurs_at(rest@, block_close(), rel as int));
    }
    let end = start + rel + close.len();
    let mut out: Vec<char> = Vec::new();
    push_range(&mut out, t.as_slice(), 0, start);
    let content_chars = chars_of(content);
    push_all(&mut out, content_chars.as_slice());
    push_range(&mut out, t.as_slice(), end, t.len());
    assert(t@.subrange(0, start as int) == t@.take(start as int));
    assert(t@.subrange(end as int, t@.len() as int) == t@.skip(end as int));
    Ok(string_of(&out))
}

/// Fills in the post template with a post.
pub fn render_post(template: &str, post: &Post) -> (page: String)
    ensures
        page@ == rendered_post(template@, post.title@, post.date@, post.content@, post.link@),
{
    proof {
        reveal_strlit("<% $title %>");
        reveal_strlit("<% $date %>");
        reveal_strlit("<% $content %>");
        reveal_strlit("<% $link %>");
    }
    let t0 = chars_of(template);
    let t1 = replace(t0.as_slice(), chars_of("<% $title %>").as_slice(), chars_of(post.title.as_str()).as_slice());
    let t2 = replace(t1.as_slice(), chars_of("<% $date %>").as_slice(), chars_of(post.date.as_str()).as_slice());
    let t3 = replace(t2.as_slice(), chars_of("<% $content %>").as_slice(), chars_of(post.content.as_str()).as_slice());
    let t4 = replace(t3.as_slice(), chars_of("<% $link %>").as_slice(), chars_of(post.link.as_str()).as_slice());
    string_of(&t4)
}

} // verus!
