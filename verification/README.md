# gable

The data model of Gable, a tool that keeps game configuration tables as
`.gable` sheet files in a workspace folder and exports them.

`src/` is a Verus library; every function in it carries a contract that
Verus proves:

- `common/` — text operations over `Seq<char>`, the table layout constants,
  the spreadsheet calendar, and paths and sheet file names
  (`Workbook@Sheet.gable`; the folder under the workspace decides the table
  kind: `enums`, `kvs`, `localizes`, else normal).
- `gui/datas/` — cells, tables, field and record extraction, the workspace
  tree (building it from a folder listing, finding, adding, renaming and
  removing nodes, the listing order), the record of workbooks open for
  editing, queued commands and log records.
- `gui/form/` — what the preview shows of a sheet, a workbook and the open
  workbook tabs.
- `gui/` — localisation, pop-up requests, the file explorer's decisions
  (free names for new files, renaming plans, context menus) and the
  reaction to watched file events.
- `command_line.rs` — the arguments the command-line mode runs with.

`app/` is the program around it: reading and writing files, the folder
watcher (notify), the log file, language files (serde_json) and the cell
conversions that involve floating point.

`tests/` exercises the library on concrete values.
