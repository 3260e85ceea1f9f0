# data_syncer

Generates C# (Unity) scripts from spreadsheet sheets whose top-left cell is
`**SYNC**`: global constants, variables, headers, enums and lists, and a class
of definitions with an id enum. When a sheet's script already exists, only the
blocks between the `//-NAME-S-` and `//-NAME-E-` marker lines are replaced.

Layout:

- `src/` is the verified library (Verus): `text` (character-level helpers),
  `model` (cells, sheets, fields, definitions), `datetime` (dates through
  chrono), `blocks` (the generated C# text), `fields` and `columns` (how cells
  become declarations and values), `sheet` (reading a sheet row by row),
  `merge` (updating an existing script), `script` (the decisions per sheet),
  `stable` and `rerun` (why running again on an unchanged sheet changes
  nothing, where no generated block body holds the marker prefix `//-`, the
  class and sheet names hold no `/`, and, for a script that existed, no block
  of it was written inside another block's markers).
- `app/` is the program around it: arguments, finding workbooks, reading them
  with calamine, the worker threads, the console and the files.
- `tests/` holds the tests.
