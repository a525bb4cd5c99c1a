use tau::code::{assemble_code_blocks, split_code_blocks, Piece};
use tau::config::SiteConfig;
use tau::dates::{atom_date, is_post_date, rss_date, DateError};
use tau::feed::{atom_feed, idify, rss_feed, FeedError};
use tau::html::escape_html;
use tau::markdown::{discount_input_length, discount_output_length, with_trailing_newline};
use tau::post::{is_post_file, new_post, parse_post_source, sort_posts, Post, PostError};
use tau::serve::{is_within_root, mime_type, requested_path, serves_file};
use tau::site::{
    archive_content, archive_page, home_content, home_page, is_listed_page, page_file_name,
    post_extract, post_page, sitemap, sitemap_entry, split_listing, ListingEntry,
};
use tau::slug::{post_link, post_page_path, titleify};
use tau::template::{render_default, render_post, TemplateError, Templates};
use tau::text::is_whitespace;

fn post(title: &str, date: &str, content: &str) -> Post {
    new_post(title.to_string(), date.to_string(), content.to_string())
}

fn site() -> SiteConfig {
    SiteConfig {
        title: "Blog".to_string(),
        author: "Kaashif".to_string(),
        tagline: "Words".to_string(),
        url: "https://example.com".to_string(),
        uploadcmd: "true".to_string(),
        extrafiles: vec![],
    }
}

const DEFAULT: &str =
    "<html><title><% $title %></title><% unless ($subtemplate) { %>old<% } %></html>";

#[test]
fn titleify_maps_punctuation_to_hyphens() {
    assert_eq!(
        titleify("Why do programmers constantly and needlessly obfuscate code?"),
        "why-do-programmers-constantly-and-needlessly-obfuscate-code"
    );
    assert_eq!(titleify("Hello, World!"), "hello-world");
}

#[test]
fn titleify_collapses_pairs_of_hyphens_once() {
    // "A -- B" maps to "A----B"; each "--" becomes "-" once, leaving "A--B".
    assert_eq!(titleify("A -- B"), "a--b");
    assert_eq!(titleify("--x--"), "-x");
    assert_eq!(titleify(""), "");
}

#[test]
fn titleify_keeps_unicode_letters() {
    assert_eq!(titleify("Ünïcode Tïtle"), "ünïcode-tïtle");
}

#[test]
fn post_link_uses_date_and_slug() {
    assert_eq!(post_link("2022-10-16", "Hello, World!"), "/2022/10/16/hello-world/");
}

#[test]
fn post_page_path_matches_link() {
    let path = post_page_path("2022-10-16", "Hello, World!");
    assert_eq!(path, vec!["2022/10/16", "hello-world", "index.html"]);
    let relative = path.join("/");
    let entry: String = sitemap_entry("https://example.com", &relative).into_iter().collect();
    assert_eq!(entry, format!("https://example.com{}", post_link("2022-10-16", "Hello, World!")));
}

#[test]
fn idify_post_page() {
    assert_eq!(
        idify("https://www.kaashif.co.uk", "https://www.kaashif.co.uk/2022/10/16/hello/"),
        "urn:https-www-kaashif-co-uk:-2022-10-16-hello"
    );
}

#[test]
fn idify_site_root() {
    assert_eq!(
        idify("https://www.kaashif.co.uk", "https://www.kaashif.co.uk/index.html"),
        "urn:https-www-kaashif-co-uk:-index.html"
    );
}

#[test]
fn idify_foreign_page_keeps_whole_input() {
    assert_eq!(idify("http://a.b", "http://c.d/x"), "urn:http-a-b:http:--c.d-x");
}

#[test]
fn escape_html_all_specials() {
    assert_eq!(
        escape_html("<a href='x'>&{}`\"</a>"),
        "&lt;a href=&#39;x&#39;&gt;&amp;&#123;&#125;&#96;&quot;&lt;/a&gt;"
    );
    assert_eq!(escape_html("plain text é"), "plain text é");
}

#[test]
fn escape_html_concatenation() {
    let a = "<b>";
    let b = "&c'";
    assert_eq!(escape_html(&format!("{a}{b}")), format!("{}{}", escape_html(a), escape_html(b)));
}

#[test]
fn rss_date_formats() {
    assert_eq!(rss_date("2022-10-16").unwrap(), "Sun, 16 Oct 2022 12:00:00 AM -0000");
    assert_eq!(rss_date("2014-04-18").unwrap(), "Fri, 18 Apr 2014 12:00:00 AM -0000");
    assert_eq!(rss_date("2022-13-01"), Err(DateError::Invalid));
}

#[test]
fn atom_date_formats() {
    assert_eq!(atom_date("2022-10-16").unwrap(), "2022-10-16T00:00:00Z");
    assert_eq!(atom_date("not a date"), Err(DateError::Invalid));
}

#[test]
fn post_dates_are_checked() {
    assert!(is_post_date("2020-02-29"));
    assert!(!is_post_date("2021-02-29"));
    assert!(!is_post_date("yesterday"));
}

#[test]
fn render_default_replaces_block() {
    assert_eq!(
        render_default(DEFAULT, "T", "C").unwrap(),
        "<html><title>T</title>C</html>"
    );
}

#[test]
fn render_default_errors() {
    assert_eq!(render_default("<html></html>", "T", "C"), Err(TemplateError::NoContentBlock));
    assert_eq!(
        render_default("<% unless ($subtemplate) { %>", "T", "C"),
        Err(TemplateError::UnclosedContentBlock)
    );
}

#[test]
fn render_default_title_everywhere() {
    assert_eq!(
        render_default("<% $title %>|<% unless ($subtemplate) } %>|<% $title %>", "X", "Y").unwrap(),
        "X|Y|X"
    );
}

#[test]
fn render_post_fills_all_markers() {
    let p = post("T", "2022-10-16", "<p>c</p>");
    assert_eq!(
        render_post("<% $title %>;<% $date %>;<% $content %>;<% $link %>", &p),
        "T;2022-10-16;<p>c</p>;/2022/10/16/t/"
    );
}

#[test]
fn code_blocks_split_and_assemble() {
    let md = "intro\n```\n<b>\n```\n```rust\nfn x() {}\n```\nend";
    let pieces = split_code_blocks(md);
    assert_eq!(pieces.len(), 4);
    match &pieces[2] {
        Piece::Highlight { language, code } => {
            assert_eq!(language, "rust");
            assert_eq!(code, "fn x() {}\n");
        }
        _ => panic!("expected a block to highlight"),
    }
    let out = assemble_code_blocks(&pieces, &vec!["<hl/>".to_string()]);
    assert_eq!(out, "intro\n<pre><code>&lt;b&gt;\n</code></pre>\n<hl/>end\n");
}

#[test]
fn code_block_language_is_trimmed() {
    let pieces = split_code_blocks("```  python  \nx\n```\n");
    match &pieces[0] {
        Piece::Highlight { language, .. } => assert_eq!(language, "python"),
        _ => panic!("expected a block to highlight"),
    }
}

#[test]
fn unclosed_code_block_is_dropped() {
    let pieces = split_code_blocks("a\n```py\nx\n");
    assert_eq!(assemble_code_blocks(&pieces, &vec![]), "a\n");
}

#[test]
fn plain_markdown_passes_through() {
    let pieces = split_code_blocks("a\r\nb\n\nc");
    assert_eq!(assemble_code_blocks(&pieces, &vec![]), "a\nb\n\nc\n");
}

#[test]
fn parse_post_source_sections() {
    let s = parse_post_source("Title\r\n2022-10-16\nbody\nmore").unwrap();
    assert_eq!(s.title, "Title");
    assert_eq!(s.date, "2022-10-16");
    assert_eq!(s.body, "body\nmore");
    let s = parse_post_source("T\n2022-10-16").unwrap();
    assert_eq!(s.body, "");
}

#[test]
fn parse_post_source_errors() {
    assert_eq!(parse_post_source("Title only").err(), Some(PostError::NoDate));
    assert_eq!(parse_post_source("T\nbad\nbody").err(), Some(PostError::InvalidDate));
}

#[test]
fn sort_posts_newest_first_and_stable() {
    let posts = vec![
        post("A", "2020-01-01", ""),
        post("B", "2022-01-01", ""),
        post("C", "2020-01-01", ""),
        post("D", "2021-06-30", ""),
    ];
    let titles: Vec<String> = sort_posts(posts).into_iter().map(|p| p.title).collect();
    assert_eq!(titles, vec!["B", "D", "A", "C"]);
}

#[test]
fn extract_stops_at_comment_and_demotes_headings() {
    let extract: String =
        post_extract("<p>a</p>\n<h1>x</h1>\n<!-- more -->\nrest").into_iter().collect();
    assert_eq!(extract, "<p>a</p>\n<h2>x</h2>");
    let all: String = post_extract("<h1>a</h1><h2>b</h2><h3>c</h3>").into_iter().collect();
    assert_eq!(all, "<h2>a</h2><h3>b</h3><h4>c</h4>");
}

#[test]
fn home_content_entry() {
    let posts = vec![post("T", "2022-10-16", "<p>a</p>\n<!--\nb")];
    assert_eq!(
        home_content(&posts),
        "<a href='/2022/10/16/t/'><h2>T</h2></a>\n<h3>2022-10-16</h3>\n<p>a</p></code></pre></ul></ol></p>\n<br/><p><a href='/2022/10/16/t/'>Read more</a></p><hr/>"
    );
}

#[test]
fn archive_content_entry() {
    let posts = vec![post("T", "2022-10-16", "")];
    assert_eq!(
        archive_content(&posts),
        "<table>\n <tr>\n  <td>\n   <time datetime=\"2022-10-16\" pubdate=\"true\">2022-10-16</time>\n  </td>\n  <td>\n   <a href=\"/2022/10/16/t/\">T</a>\n  </td>\n </tr>\n</table>\n"
    );
}

#[test]
fn pages_use_default_template() {
    let templates = Templates { default: DEFAULT.to_string(), post: "[<% $content %>]".to_string() };
    let posts = vec![post("T", "2022-10-16", "c")];
    assert!(home_page(&templates, "Blog", &posts).unwrap().starts_with("<html><title>Blog</title><a href="));
    assert!(archive_page(&templates, "Blog", &posts).unwrap().starts_with("<html><title>Blog</title><table>"));
    assert_eq!(post_page(&templates, &posts[0]).unwrap(), "<html><title>T</title>[c]</html>");
    let broken = Templates { default: "x".to_string(), post: String::new() };
    assert_eq!(post_page(&broken, &posts[0]), Err(TemplateError::NoContentBlock));
}

#[test]
fn sitemap_lists_pages() {
    let pages = vec![
        "index.html".to_string(),
        "2022/10/16/post/index.html".to_string(),
        "archive.html".to_string(),
    ];
    assert_eq!(
        sitemap("https://x", &pages),
        "https://x/\nhttps://x/2022/10/16/post/\nhttps://x/archive.html\n"
    );
    assert_eq!(sitemap("https://x", &vec![]), "\n");
}

#[test]
fn rss_feed_text() {
    let posts = vec![post("T", "2022-10-16", "c")];
    assert_eq!(
        rss_feed(&site(), &posts).unwrap(),
        "<rss version=\"2.0\">\n<channel>\n<title>Blog</title>\n<link>https://example.com</link>\n<description>Words</description>\n<item>\n<title>T</title>\n<link>https://example.com/2022/10/16/t/</link>\n<description></description>\n<pubDate>Sun, 16 Oct 2022 12:00:00 AM -0000</pubDate>\n<guid>/2022/10/16/t/</guid>\n</item>\n</channel></rss>"
    );
    let bad = vec![post("T", "2022-02-30", "c")];
    assert_eq!(rss_feed(&site(), &bad), Err(DateError::Invalid));
}

#[test]
fn atom_feed_text() {
    let posts = vec![post("T", "2022-10-16", "<p>c</p>")];
    assert_eq!(
        atom_feed(&site(), &posts).unwrap(),
        "<?xml version=\"1.0\" encoding=\"utf-8\"?>\n<feed xmlns=\"http://www.w3.org/2005/Atom\" xml:lang=\"en\">\n<title type=\"text\">Blog: Words</title>\n<link rel=\"self\" href=\"https://example.com/feeds/all.atom.xml\" />\n<link href=\"https://example.com/index.html\" />\n<id>urn:https-example-com:-index.html</id>\n<updated>2022-10-16T00:00:00Z</updated>\n<entry>\n  <title type=\"text\">T</title>\n  <link rel=\"alternate\" href=\"https://example.com/2022/10/16/t/\" />\n  <id>urn:https-example-com:-2022-10-16-t</id>\n  <published>2022-10-16T00:00:00Z</published>\n  <updated>2022-10-16T00:00:00Z</updated>\n  <author>\n   <name>Kaashif</name>\n  </author>\n  <content type=\"html\">\n&lt;p&gt;c&lt;/p&gt;\n</content></entry>\n</feed>"
    );
}

#[test]
fn atom_feed_errors() {
    assert_eq!(atom_feed(&site(), &vec![]), Err(FeedError::NoPosts));
    let bad = vec![post("T", "2022-10-16", ""), post("U", "x", "")];
    assert_eq!(atom_feed(&site(), &bad), Err(FeedError::Date(DateError::Invalid)));
}

#[test]
fn requested_paths() {
    assert_eq!(requested_path("/2022/10/?q=1"), "2022/10/");
    assert_eq!(requested_path("/"), "index.html");
    assert_eq!(requested_path("///a?b?c"), "a");
    assert_eq!(requested_path(""), "index.html");
    assert_eq!(requested_path("/?x"), "index.html");
}

#[test]
fn mime_types() {
    assert_eq!(mime_type(Some("html")), "text/html; charset=utf-8");
    assert_eq!(mime_type(Some("jpeg")), "image/jpeg");
    assert_eq!(mime_type(Some("jpg")), "image/jpeg");
    assert_eq!(mime_type(Some("HTML")), "application/octet-stream");
    assert_eq!(mime_type(None), "application/octet-stream");
}

#[test]
fn page_names() {
    assert!(is_listed_page("about"));
    assert!(!is_listed_page(".hidden"));
    assert_eq!(page_file_name("about"), "about.html");
}

#[test]
fn listing_puts_pages_before_directories() {
    let entry = |is_dir: bool, extension: Option<&str>| ListingEntry {
        is_dir,
        is_file: !is_dir,
        extension: extension.map(|e| e.to_string()),
    };
    let paths = [
        "site/2022",
        "site/index.html",
        "site/style.css",
        "site/feeds",
        "site/archive.html",
        "site/.html",
    ];
    let entries = vec![
        entry(true, None),
        entry(false, Some("html")),
        entry(false, Some("css")),
        entry(true, None),
        entry(false, Some("html")),
        entry(false, None),
    ];
    let (pages, dirs) = split_listing(&entries);
    assert_eq!(pages, vec![1, 4]);
    assert_eq!(dirs, vec![0, 3]);
    let page_paths: Vec<&str> = pages.iter().map(|&k| paths[k]).collect();
    let dir_paths: Vec<&str> = dirs.iter().map(|&k| paths[k]).collect();
    assert_eq!(page_paths, vec!["site/index.html", "site/archive.html"]);
    assert_eq!(dir_paths, vec!["site/2022", "site/feeds"]);
}

#[test]
fn listing_skips_other_entries() {
    let entries = vec![
        ListingEntry { is_dir: false, is_file: false, extension: Some("html".to_string()) },
        ListingEntry { is_dir: false, is_file: true, extension: Some("HTML".to_string()) },
    ];
    let (pages, dirs) = split_listing(&entries);
    assert!(pages.is_empty());
    assert!(dirs.is_empty());
}

#[test]
fn escaping_is_not_idempotent() {
    assert_eq!(escape_html("&amp;"), "&amp;amp;");
    assert_eq!(escape_html(&escape_html("<")), "&amp;lt;");
}

#[test]
fn escaping_keeps_distinct_texts_distinct() {
    let texts = ["<", "&lt;", "&amp;lt;", "'", "&#39;", "{}", "&#123;&#125;", ""];
    for a in texts {
        for b in texts {
            assert_eq!(a == b, escape_html(a) == escape_html(b), "{a:?} {b:?}");
        }
    }
}

#[test]
fn white_space_follows_char_is_whitespace() {
    let samples = [
        ' ', '\t', '\n', '\u{b}', '\u{c}', '\r', '\u{85}', '\u{a0}', '\u{1680}', '\u{2000}',
        '\u{200a}', '\u{200b}', '\u{2028}', '\u{2029}', '\u{202f}', '\u{205f}', '\u{3000}',
        '\u{feff}', 'a', '-', '\u{1f}', '\u{180e}',
    ];
    for c in samples {
        assert_eq!(is_whitespace(c), c.is_whitespace(), "{c:?}");
    }
}

#[test]
fn ascii_slug_in_lower_case() {
    assert_eq!(titleify("ABC Def"), "abc-def");
    assert_eq!(titleify("Rust 2021: what's new?"), "rust-2021-what-s-new");
}

#[test]
fn atom_dates_pad_with_zeros() {
    assert_eq!(atom_date("0999-01-02").unwrap(), "0999-01-02T00:00:00Z");
    assert_eq!(atom_date("2024-02-29").unwrap(), "2024-02-29T00:00:00Z");
    assert_eq!(atom_date("2023-02-29"), Err(DateError::Invalid));
    assert!(!is_post_date("2023-13-01"));
}

#[test]
fn served_paths_stay_under_the_root() {
    let parts = |items: &[&str]| -> Vec<Vec<u8>> {
        items.iter().map(|p| p.as_bytes().to_vec()).collect()
    };
    let root = parts(&["/", "srv", "site"]);
    let inside = parts(&["/", "srv", "site", "index.html"]);
    let outside = parts(&["/", "srv", "site2", "index.html"]);
    let above = parts(&["/", "srv"]);
    assert!(is_within_root(&root, &inside));
    assert!(is_within_root(&root, &root));
    assert!(!is_within_root(&root, &outside));
    assert!(!is_within_root(&root, &above));
    assert!(serves_file(&root, &Some(inside.clone()), true));
    assert!(!serves_file(&root, &Some(inside), false));
    assert!(!serves_file(&root, &Some(outside), true));
    assert!(!serves_file(&root, &None, true));
}

#[test]
fn markdown_input_stops_at_nul() {
    assert_eq!(discount_input_length(b"abc"), Some(3));
    assert_eq!(discount_input_length(b"ab\0cd"), Some(2));
    assert_eq!(discount_input_length(b""), Some(0));
    assert_eq!(discount_output_length(-1), None);
    assert_eq!(discount_output_length(0), Some(0));
    assert_eq!(discount_output_length(12), Some(12));
    assert_eq!(with_trailing_newline("<p>x</p>"), "<p>x</p>\n");
}

#[test]
fn only_md_files_are_posts() {
    assert!(is_post_file(Some("md")));
    assert!(!is_post_file(Some("MD")));
    assert!(!is_post_file(Some("markdown")));
    assert!(!is_post_file(None));
}

#[test]
fn lone_carriage_return_stays_on_last_line() {
    let pieces = split_code_blocks("a\r\nb\r");
    assert_eq!(assemble_code_blocks(&pieces, &vec![]), "a\nb\r\n");
}

#[test]
fn sorting_sorted_posts_changes_nothing() {
    let posts = vec![
        post("B", "2022-01-01", ""),
        post("A", "2020-01-01", ""),
        post("C", "2020-01-01", ""),
    ];
    let once: Vec<String> = sort_posts(posts).into_iter().map(|p| p.title).collect();
    assert_eq!(once, vec!["B", "A", "C"]);
}

#[test]
fn ascii_titles_give_plain_slugs() {
    for title in ["Hello, World!", "  Spaces  around  ", "C++ & Rust: 2 --- 3?", "---"] {
        let slug = titleify(title);
        assert!(slug.chars().all(|c| c == '-' || c.is_ascii_lowercase() || c.is_ascii_digit()));
        assert!(!slug.ends_with('-'));
    }
}

#[test]
fn post_titles_drop_trailing_carriage_returns() {
    let s = parse_post_source("Title\r\r\n2022-10-16\r\nbody").unwrap();
    assert_eq!(s.title, "Title");
    assert_eq!(s.date, "2022-10-16");
}

fn expected_rss_text(year: i32, month: u32, day: u32) -> String {
    let offsets = [0, 3, 2, 5, 0, 3, 5, 1, 4, 6, 2, 4];
    let y = if month < 3 { year - 1 } else { year };
    let weekday = (y + y.div_euclid(4) - y.div_euclid(100) + y.div_euclid(400)
        + offsets[(month - 1) as usize]
        + day as i32)
        .rem_euclid(7);
    let weekdays = ["Sun", "Mon", "Tue", "Wed", "Thu", "Fri", "Sat"];
    let months = ["Jan", "Feb", "Mar", "Apr", "May", "Jun", "Jul", "Aug", "Sep", "Oct", "Nov", "Dec"];
    format!(
        "{}, {:02} {} {:04} 12:00:00 AM -0000",
        weekdays[weekday as usize],
        day,
        months[(month - 1) as usize],
        year
    )
}

fn month_length(year: i32, month: u32) -> u32 {
    let leap = year % 4 == 0 && (year % 100 != 0 || year % 400 == 0);
    match month {
        2 if leap => 29,
        2 => 28,
        4 | 6 | 9 | 11 => 30,
        _ => 31,
    }
}

#[test]
fn rss_dates_follow_the_calendar() {
    let years = [0, 1, 3, 4, 99, 100, 400, 1582, 1600, 1899, 1900, 1970, 1999, 2000, 2024, 2100, 9999];
    for year in years {
        for month in 1..=12 {
            for day in 1..=month_length(year, month) {
                let date = format!("{year:04}-{month:02}-{day:02}");
                assert_eq!(rss_date(&date).unwrap(), expected_rss_text(year, month, day), "{date}");
                assert_eq!(
                    atom_date(&date).unwrap(),
                    format!("{date}T00:00:00Z"),
                    "{date}"
                );
            }
        }
    }
}

#[test]
fn feeds_are_written_when_dates_are_read() {
    let posts = vec![post("B", "2024-02-29", "b"), post("A", "0001-01-01", "a")];
    assert!(rss_feed(&site(), &posts).is_ok());
    assert!(atom_feed(&site(), &posts).is_ok());
    let bad = vec![post("B", "2024-02-30", "b")];
    assert_eq!(rss_feed(&site(), &bad), Err(DateError::Invalid));
    assert_eq!(atom_feed(&site(), &bad), Err(FeedError::Date(DateError::Invalid)));
}
