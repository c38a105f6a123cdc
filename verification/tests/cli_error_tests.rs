use sqlite3_editor::cli_error::{error_code_of_result, format_query, CLIError};
use sqlite3_editor::commands::CLIErrorCode;

fn s(x: &str) -> String {
    x.to_owned()
}

#[test]
fn result_codes_map_to_exit_codes() {
    assert_eq!(error_code_of_result(5), CLIErrorCode::DatabaseBusy);
    assert_eq!(error_code_of_result(5 | (2 << 8)), CLIErrorCode::DatabaseBusy);
    assert_eq!(error_code_of_result(26), CLIErrorCode::NotADatabase);
    assert_eq!(error_code_of_result(10 | (12 << 8)), CLIErrorCode::SystemIoFailure);
    assert_eq!(error_code_of_result(1), CLIErrorCode::OtherError);
    assert_eq!(error_code_of_result(-1), CLIErrorCode::OtherError);
}

#[test]
fn query_errors_carry_the_code_of_sqlite() {
    let err = rusqlite::Error::SqliteFailure(rusqlite::ffi::Error::new(6), Some(s("database table is locked")));
    let e = CLIError::new_query_error(&err, s("SELECT 1"), s("[]"));
    assert_eq!(e.code(), CLIErrorCode::DatabaseLocked);
    assert_eq!(e.message(), "database table is locked\nQuery: SELECT 1\nParameters: []");
    let e = CLIError::new_query_error(&rusqlite::Error::InvalidQuery, s("EDITOR_PRAGMA list_tables"), s("[1]"));
    assert_eq!(e.code(), CLIErrorCode::OtherError);
    assert!(e.message().ends_with("\nMethod: list_tables\nParameters: [1]"));
}

#[test]
fn methods_are_named_without_the_pragma_prefix() {
    assert_eq!(format_query("EDITOR_PRAGMA table_schema"), "Method: table_schema");
    assert_eq!(format_query("EDITOR_PRAGMA"), "Query: EDITOR_PRAGMA");
    assert_eq!(format_query("SELECT 1"), "Query: SELECT 1");
}

#[test]
fn unexpected_changes_messages() {
    let e = CLIError::UnexpectedChanges { expected: 1, actual: 0, query: s("UPDATE t"), params_json: s("[]") };
    assert_eq!(
        e.message(),
        "The query did not make any changes. Maybe the data was already updated by a different process.\nQuery: UPDATE t\nParameters: []"
    );
    let e = CLIError::UnexpectedChanges { expected: 1, actual: 12, query: s("UPDATE t"), params_json: s("[]") };
    assert_eq!(
        e.message(),
        "Rolled back the transaction because an unexpected number of rows were modified: expected 1 rows, actually modified 12 rows.\nQuery: UPDATE t\nParameters: []"
    );
    assert_eq!(e.code(), CLIErrorCode::OtherError);
}

#[test]
fn invalid_number_of_parameters_lists_placeholders() {
    let e = CLIError::InvalidNumberOfParameters {
        query: s("SELECT ?, :a"),
        placeholders: vec![None, Some(s(":a"))],
        params_json: s("[1]"),
    };
    assert_eq!(e.message(), "Invalid number of parameters.\nQuery: SELECT ?, :a\nParameters: [1]\nPlaceholders: [?, :a]");
}

#[test]
fn other_errors_and_ffi_errors() {
    let e = CLIError::new_other_error(s("boom"), Some(s("SELECT 1")), Some(s("[]")));
    assert_eq!(e.message(), "boomQuery: SELECT 1[]");
    let e = CLIError::new_other_error(s("boom"), None, None);
    assert_eq!(e.message(), "boom");
    let err = rusqlite::Error::SqliteFailure(rusqlite::ffi::Error::new(14), None);
    let e = CLIError::new_ffi_error(&err, s("sqlite3_open_v2"), s("[\"a.db\"]"));
    assert!(e.message().ends_with("\nFunction: sqlite3_open_v2\nParameters: [\"a.db\"]"));
}
