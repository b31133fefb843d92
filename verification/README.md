# tiger

A front end for the Tiger language of *Modern Compiler Implementation*,
written in Verus: the parser, the syntax tree and a symbol table, each
function with a contract that Verus proves.

## Layout

- `src/ir/expr.rs` — the syntax tree (`TExpr`, `TDec`, `TType`, ...), its
  mathematical mirror (`SExpr`, `SDec`, ...) with the views between them,
  source positions (`Span`: byte offset and line) and `LSpan`, the parser
  input that keeps them up to date.
- `src/parser/` — the grammar. Each parser `parse_x` has a spec function
  `spec_x` on the characters of the text and a read position, and its
  contract `conforms(r, i, spec_x(..), view)` says that it consumes exactly
  what `spec_x` says and returns the value that `spec_x` gives, or fails as
  `spec_x` fails. `parse_source` turns a whole text into a `TModule`.
- `src/symbol_table.rs` — a map from names to values over `HashMap`, with the
  law that a lookup gives back what the last insert of that key stored.
- `src/driver/` — the compiler's options.
- `app/main.rs` — the command line (clap) around the library.
- `tests/` — tests on concrete inputs.

Build and check with Verus: `verus src/lib.rs --crate-type lib` (with the
outside crates of `Cargo.toml` on the path).
