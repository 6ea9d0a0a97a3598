# elixcee

The formula-text and diagnostics core of a headless Excel workbook engine,
written in Verus: every function carries a `requires`/`ensures` contract that
Verus proves.

## Layout

- `src/formula/grammar.rs` — the formula grammar as spec functions; column
  letter laws.
- `src/formula/parser.rs` — the recursive-descent formula parser, proved to
  compute the grammar, with the char span of every cell/range reference.
- `src/formula/patch.rs` — splicing ordered span patches into formula text.
- `src/formula/rewrite.rs` — reference rewriting for row/column
  insert-delete, sheet rename, range move and `<definedName>` values, with
  their laws (deleting an inserted band gives every cell coordinate back; a
  written sheet qualifier reads back as the same name). A defined name's
  qualifiers are each renamed once, by the rename of the sheet they name.
- `src/formula/workbook.rs` — structured table references normalized to
  plain references.
- `src/formula/tables.rs` — table structured references rewritten across a
  workbook's formulas.
- `src/formula/cycle.rs` — formula dependency-cycle detection (Kahn's
  algorithm), proved equivalent to the existence of a dependency-closed set;
  the recalculation order (every formula after what it reads, those behind
  a cycle last) and the formulas a change selects.
- `src/formula/summary.rs` — the JSON summary of a workbook's formulas.
- `src/formula/remap.rs` — defined-name detection and the remapping of
  references onto one combined grid for recalculation.
- `src/formula/deps.rs` — bounded, sorted views of the formula graph:
  dependency edges, input/output candidates and completeness diagnostics.
- `src/array.rs` — multi-dimensional VBA arrays over a row-major store, with
  the laws of their index arithmetic.
- `src/editor.rs` — the editor's undo/redo history and edit transactions,
  with the laws that relate undo, redo, commit and abort.
- `src/a1.rs` — A1 cell and range text.
- `src/package.rs` — the pure parts of saving a package: part paths, range
  and grid validation, shared strings, workbook, relationship and
  content-type parts, the ODS manifest.
- `src/sheetxml.rs` — the worksheet parts of a save: cells, rows in order
  with hidden rows, hidden columns, merges and the carried-over fragments.
- `src/ods.rs` — the `content.xml` of an OpenDocument save.
- `src/passthrough.rs` — what a save copies through from its source: the
  parts by name with their content types, the macro project, the reserved
  worksheet part numbers, carried relationships by target.
- `src/relgraph.rs` — the source package's relationship graph: the parts
  that only deleted sheets lead to, and the relationships a regenerated
  `.rels` part carries over.
- `src/diagnose.rs`, `src/diagnoseworkbook.rs` — JSON and plain-text
  rendering of diagnoses and of diagnosed test runs.
- `src/sheetjson.rs` — the workbook and worksheet JSON handed to a script
  host (cells in row-then-column order, `!ref`, merges, hidden intervals,
  validations, tables, charts, comments, conditional formats, panes).
- `src/types.rs` — Excel error values, array bounds, date serials, cell
  addresses.
- `src/diagnostics.rs`, `src/check.rs` — source locations, JSON escaping and
  the CLI's JSON error/diagnostic shapes.
- `src/text.rs` — char-sequence helpers shared by the above; Unicode
  classification, case mapping and `Debug` quoting are std calls whose
  results are named, not restated.

Tests live under `tests/`.

## Scope

The library holds the engine's text, structure and bookkeeping logic. The
VBA static checker, the diagnosis runner that executes macros, formula
recalculation and the snapshot command work over a VBA parser and
interpreter and a formula evaluator that this crate does not contain, so
they are not here; nor is reading a workbook into cells. `app/` writes and
reads the zip packages whose parts the library builds.
