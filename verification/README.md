# duck

The verified core of `duck`, a documentation generator for C and C++
projects with `rustdoc`-style Markdown comments, documentation tests and
`mdbook`-style pages.

Layout of `src/`:

- `text.rs` — the string operations the generator relies on (replace, split,
  join, trim, prefix tests), each proved against a model over character
  sequences.
- `symbols.rs` — `SymbolIndex`, the index of documented symbols (name to
  kind), with distinct names as its invariant and a `Map` as its view.
- `paths.rs` — where the page of a symbol or a namespace lives
  (`get_path_for_name`, `get_namespace_path`) and laws about those paths.
- `markdown.rs` — the rewriting of Markdown events: documentation links,
  mermaid diagrams, code blocks and documentation tests, page titles from
  metadata blocks; a step function with an exact model, the whole-document
  rewriting, and laws about it.
- `syntaxes.rs` — syntect's default syntax set and its classed-HTML
  generator, each opaque value held with its model so that only the trusted
  items that make the calls can change either.
- `highlight.rs` — syntax highlighting of code blocks, stated over names for
  what syntect finds, fails on and generates.
- `pulldown.rs` — parsing with `pulldown-cmark` and HTML output, the events
  held with the source they were read from.
- `render.rs` — `MarkdownDoc`: rewriting, highlighting and HTML output of a
  page.
- `search.rs` — the entries of the search index.

`app/` is the command-line program: configuration, file I/O, the symbol
parser, documentation test runs and templates.
