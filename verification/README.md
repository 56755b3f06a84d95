# limbo_core — expression planning

Planning of `SELECT` statements and translation of SQL expressions into
virtual-machine instructions, verified with Verus.

- `src/ast.rs` — the parts of a parsed statement that planning reads.
- `src/schema.rs` — tables, columns and the schema they are looked up in.
- `src/function.rs` — the built-in functions and their lookup by name.
- `src/vdbe.rs` — instructions and the program builder (registers, labels,
  cursors), with a model of the builder's state.
- `src/select.rs` — the plan of a `SELECT`.
- `src/expr.rs` — column resolution, column analysis, `build_select` and
  `translate_expr`, each specified by a function over the builder's model.
- `src/domain.rs` — deciding, before a call, whether planning is defined on
  an input, and checked entry points that decide and then call.
- `src/properties.rs` — properties that span calls: translation only adds to
  a program, leaves its value in the target register, resolves columns
  unambiguously, whatever the order of the tables and as the name
  qualified by its table would, writes only its
  target and the registers it hands out, and makes comparison jumps skip
  the reset to 0; analysis finds an aggregate at any depth of a column.
- `src/util.rs` — integer and real literal recognition, identifier
  normalization.
- `app/` — conversion from the `sqlite3-parser` syntax tree, error messages
  through `anyhow`.
