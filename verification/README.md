# excelookup

A two-sheet lookup tool (VLOOKUP / inner join over Excel sheets) whose core is
written in Verus and proved against its contracts.

## Layout

- `src/` — the verified library
  - `model.rs`: cells and tables
  - `text.rs`: whitespace trimming, decimal digits, strings built character by character
  - `keys.rs`: the normalized key a row is matched by (number/text matching, bracket
    folding, case-number suffixes, composite keys)
  - `index.rs`: the index of the right table (a foldhash `HashMap` behind a small
    trusted interface)
  - `join.rs`: left and inner joins, duplicate expansion, the output-size estimate and
    limit, the joined view over the source tables
  - `read.rs`: from a sheet's used area to a table (header row choice, column names,
    data rows, preview)
  - `export.rs`: column widths and progress reports of an export
  - `startup.rs`: the message shown when the window cannot start
  - `view.rs`: decisions behind the workbench screens (row filters, header-row
    choices, checks before a join)
  - `laws.rs`: properties relating several functions, stated and proved
- `app/` — workbook I/O around the library: reading with calamine, writing with
  rust_xlsxwriter, start-up diagnostics
- `tests/` — tests of the library on concrete values
