# code-search

A structure-aware code search tool. It scans a directory of Rust, Go and TypeScript
sources, extracts searchable targets (functions, methods, types and local bindings) with
tree-sitter, ranks them with BM25 and prints hit-centred traces as JSON or text.

## Layout

- `src/` — the verified library.
  - `text.rs`, `unicode.rs`, `paths.rs` — tokenizing, white space, truncation, path order
    and relative paths.
  - `model.rs` — the domain types and their views.
  - `parser/` — target extraction: `syntax.rs` copies a tree-sitter parse into a plain
    syntax tree; `queries.rs`, `bindings.rs`, `flow.rs` and `targets.rs` read that tree;
    `snippets.rs` holds the text helpers; `order.rs` sorts and de-duplicates references;
    `laws.rs` states what holds of every extraction.
  - `search/` — request validation, file selection, callable and caller indices, rank
    ordering and hit assembly.
  - `output/` — the response documents and the text renderer.
- `app/` — the command-line program: argument parsing, the directory walk, file reading,
  BM25 scoring with tantivy and JSON serialisation.
- `tests/` — tests of the library.
