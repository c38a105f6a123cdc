//! Editor services for SQLite scripts: tokenizing, splitting a script into
//! statements, code lenses, placeholders, semantic highlighting, completion
//! context, and the in-memory page cache of query results.

pub mod text;
pub mod location;
pub mod range;
pub mod token;
pub mod bridge;
pub mod tokenize;
pub mod dot_command;
pub mod split_statements;
pub mod scanner;
pub mod cte;
pub mod placeholders;
pub mod table_to_be_modified;
pub mod code_lens;
pub mod semantic_highlight;
pub mod schema;
pub mod commands;
pub mod csv_import;
pub mod cli_error;
pub mod records;
pub mod pager;
pub mod msgpack;
pub mod sqlite;
pub mod database_uri;
pub mod json;
pub mod export;
pub mod json_import;
pub mod xlsx_sheet;
pub mod diagnosis;
pub mod completion;
pub mod find_widget;
pub mod query_request;
pub mod function_list;
pub mod version;
