# rust-signatures-mcp

Extracts `fn`/`struct`/`enum`/`trait`/`impl` signatures and their doc comments
from Rust source, renders them as text, and searches them with a regular
expression. The library under `src/` is verified with Verus; `app/` holds the
command-line tool and the MCP server that read files, walk directories and
print JSON.

Layout of `src/`:

- `text.rs` – character-level string operations (trim, join, indent, prefixes).
- `types.rs` – signatures and results, their mathematical views, and rendering.
- `model.rs` – plain values standing for the parsed items that extraction reads.
- `collector.rs` – which items yield a signature and what it holds.
- `item_kinds.rs` – which kind of item `syn` parses from a text.
- `syntax.rs` – parsing with `syn` and turning its items into the model,
  including the items written inside constants, statics and other items.
- `search.rs` – regular-expression search over rendered signatures; the
  command-line tool and the server match without regard to case.
- `analyze.rs` – results for a single file and the signature limit of a walk.
- `version.rs`, `registry.rs` – choosing a cached crate's directory by version.
