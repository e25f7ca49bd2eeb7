# eadup

A compiler for `.ead` documents (a plain-text markup for academic papers formatted after
GOST rules), written in Verus.

## Layout

- `src/` — the verified library.
  - `text.rs`: character helpers (Unicode white space, trimming, decimal numbers).
  - `lexer/`: splits the source into lines as `str::lines` does and gives each line (or
    each fenced listing) a token; `lex` in `lexer/mod.rs` is the specification.
  - `parser/`: builds the document tree with a stack of open containers; `spec_parse` is
    the specification; `laws.rs` proves that the tree holds as many nodes (lists aside) as
    the tokens make and that structural elements stand only at the top; `shape.rs` proves
    that every node sits in a parent that may hold it; `debug.rs` gives the indented dump
    of a tree.
  - `backend/layout.rs`: decides what goes on the page (headings, paragraphs, list items
    with their markers and final punctuation) and keeps every word when lines are broken.
- `app/` — the command-line program: reads the file, measures text and draws the PDF with
  printpdf and swash (floating point), writes the outputs. The fonts are read from
  `EADUP_FONT_DIR` (by default `assets/fonts/PT-Astra-Serif`).
- `tests/` — tests of the library.
