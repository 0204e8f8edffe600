# fldemos

The models, grammars and rules behind a set of small desktop tools, written
in Verus and proved against their contracts:

- `grammar`, `cell_parser`, `refs`, `sheet`, `functions`: the spreadsheet's
  formula grammar, the cells a formula reads, and the subscriptions between
  cells.
- `sudoku`: a sudoku board and its backtracking solver.
- `circles`: the circle drawer with its undo history.
- `registry`: the CRUD page's sorted, filtered list of names.
- `calculator`, `counter`, `playlist`, `dates`, `geometry`: keypads,
  counters, list cursors, flight booking and calendar dates, saved window
  sizes.
- `editor`, `styling`, `highlight`, `shell`, `translator`, `glyphs`,
  `hudson`: find and replace, style buffers for coloured text and the
  syntax highlighter that feeds them, words of command output, translator
  commands, the characters of a font, and the report runner's parameters.

`app/` holds the windows, files, network, threads and floating-point
arithmetic around the library (spreadsheet values, calculator results,
temperatures, distances); it is ordinary Rust. Its first argument names the
tool to open.
