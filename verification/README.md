# sqlite3_editor

The helper process of a SQLite editor: it tokenizes and splits SQL scripts,
offers code lenses, placeholders, semantic highlighting, syntax diagnostics
and completion, pages query results through an in-memory cache, and imports
and exports tables. The logic is a library verified with Verus; a thin
command-line program around it does the file, database and process I/O.

## Layout

- `src/` — the verified library.
  - Text and positions: `text`, `location`, `range`.
  - SQL scripts: `token`, `bridge` (sqlparser's tokenizer, regex and
    case mapping behind trusted wrappers), `tokenize`, `dot_command`,
    `split_statements`, `scanner` (parenthesis-aware walks), `cte`.
  - Editor services: `placeholders`, `table_to_be_modified`, `code_lens`,
    `semantic_highlight`, `completion`, `diagnosis`, `find_widget`.
  - Requests and errors: `commands`, `query_request`, `cli_error`.
  - Query results: `records`, `msgpack`, `pager` (the page cache, its
    eviction and its data-version rule).
  - Schema: `schema` (foreign keys, rowid columns, table columns).
  - Import and export: `csv_import` (the csv crate reads, the library
    plans the table), `json_import`, `export`, `json`, `xlsx_sheet`,
    `database_uri`.
  - `sqlite` (calls on in-memory connections), `function_list`, `version`.
- `tests/` — tests of the library on concrete values.
- `app/` — the command-line program: argument handling, the server loop,
  the database connection and its queries, reading and writing files.

Each module states its contracts over spec functions; the properties that
relate several calls are public proof functions named `law_*`.
