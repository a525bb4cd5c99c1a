# tau

`tau` turns a directory of Markdown posts, pages and templates into a static blog.

- `src/` is the verified library: text operations (`text`), HTML escaping (`html`),
  fenced code blocks (`code`), post sources, links and ordering (`post`, `slug`, `order`),
  templates (`template`), the home, archive and post pages and the sitemap (`site`),
  dates (`dates`, through `chrono`), the RSS and Atom feeds (`feed`), the choice of
  file and content type for a request and whether it may be served (`serve`), and the
  lengths and text exchanged with the Markdown renderer (`markdown`).
- `app/main.rs` is the command: it reads the blog's files, highlights code with
  Pygments, renders Markdown with Discount, writes the site, serves it and uploads it.
- `tests/` runs the library on concrete inputs.
