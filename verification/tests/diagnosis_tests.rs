use sqlite3_editor::diagnosis::{
    diagnose, diagnostic_of_outcome, loose_byte_to_code_point_index, Diagnostic, PossibleCause, PrepareOutcome,
    Severity,
};

fn check(sql: &str) -> Vec<Diagnostic> {
    let mut conn = rusqlite::Connection::open_in_memory().unwrap();
    diagnose(&mut conn, sql)
}

#[test]
fn diagnosis_test_simple_pass() {
    assert_eq!(check("DELETE FROM t"), vec![]);
}

#[test]
fn diagnosis_test_syntax_error() {
    assert_eq!(check("DELETE t"), vec![Diagnostic::error(7, "near \"t\": syntax error".to_owned())]);
}

#[test]
fn diagnosis_test_unterminated_string_literal() {
    assert_eq!(check(r#"SELECT 'a"#), vec![Diagnostic::error(7, "Unterminated string literal".to_owned())]);
}

#[test]
fn diagnosis_test_multiple_errors() {
    assert_eq!(
        check("foo; bar;"),
        vec![
            Diagnostic { possible_causes: vec![PossibleCause { offset: 0 }], message: "near \"foo\": syntax error".to_owned(), severity: Severity::Error },
            Diagnostic { possible_causes: vec![PossibleCause { offset: 5 }], message: "near \"bar\": syntax error".to_owned(), severity: Severity::Error },
        ]
    );
}

#[test]
fn diagnosis_test_ignore_errors_in_pragma_stmt() {
    assert_eq!(check("PRAGMA foo bar"), vec![]);
}

#[test]
fn diagnosis_test_pragma_functions() {
    assert_eq!(check("SELECT * FROM pragma_index_info(;").len(), 1);
}

#[test]
fn diagnosis_test_ignore_errors_in_explain_stmt() {
    assert_eq!(check("EXPLAIN foo bar"), vec![]);
    assert_eq!(check("EXPLAIN QUERY PLAN foo bar"), vec![]);
}

#[test]
fn diagnosis_test_empty_input() {
    assert_eq!(check(";;"), vec![]);
}

#[test]
fn diagnosis_test_unknown_table_option() {
    assert_eq!(check("CREATE TABLE t(c) foobar"), vec![Diagnostic::error(24, "unknown table option: foobar".to_owned())]);
}

#[test]
fn check_syntax_test_test_simple_pass() {
    assert_eq!(check("DELETE FROM t"), vec![]);
}

#[test]
fn check_syntax_test_test_syntax_error() {
    assert_eq!(check("DELETE t"), vec![Diagnostic::error(7, "near \"t\": syntax error".to_owned())]);
}

#[test]
fn check_syntax_test_test_unterminated_string_literal() {
    assert_eq!(check(r#"SELECT 'a"#), vec![Diagnostic::error(7, "Unterminated string literal".to_owned())]);
}

#[test]
fn check_syntax_test_test_multiple_errors() {
    assert_eq!(
        check("foo; bar;"),
        vec![
            Diagnostic { possible_causes: vec![PossibleCause { offset: 0 }], message: "near \"foo\": syntax error".to_owned(), severity: Severity::Error },
            Diagnostic { possible_causes: vec![PossibleCause { offset: 5 }], message: "near \"bar\": syntax error".to_owned(), severity: Severity::Error },
        ]
    );
}

#[test]
fn check_syntax_test_test_ignore_errors_in_pragma_stmt() {
    assert_eq!(check("PRAGMA foo bar"), vec![]);
}

#[test]
fn check_syntax_test_test_pragma_functions() {
    assert_eq!(check("SELECT * FROM pragma_index_info(;").len(), 1);
}

#[test]
fn check_syntax_test_test_ignore_errors_in_explain_stmt() {
    assert_eq!(check("EXPLAIN foo bar"), vec![]);
    assert_eq!(check("EXPLAIN QUERY PLAN foo bar"), vec![]);
}

#[test]
fn check_syntax_test_test_empty_input() {
    assert_eq!(check(";;"), vec![]);
}

#[test]
fn check_syntax_test_test_unknown_table_option() {
    assert_eq!(check("CREATE TABLE t(c) foobar"), vec![Diagnostic::error(24, "unknown table option: foobar".to_owned())]);
}

#[test]
fn byte_offsets_become_character_offsets() {
    assert_eq!(loose_byte_to_code_point_index("aé b", 0), 0);
    assert_eq!(loose_byte_to_code_point_index("aé b", 1), 1);
    assert_eq!(loose_byte_to_code_point_index("aé b", 2), 2);
    assert_eq!(loose_byte_to_code_point_index("aé b", 3), 2);
    assert_eq!(loose_byte_to_code_point_index("aé b", 4), 3);
    assert_eq!(loose_byte_to_code_point_index("aé b", 100), 4);
}

#[test]
fn outcome_syntax_error_is_placed_after_the_prefix() {
    let o = PrepareOutcome::SqlInputError {
        sql: "EXPLAIN DELETE t".to_owned(),
        offset: 15,
        msg: "near \"t\": syntax error".to_owned(),
    };
    assert_eq!(
        diagnostic_of_outcome(o, "DELETE t", 10),
        Some(Diagnostic::error(17, "near \"t\": syntax error".to_owned()))
    );
    let other = PrepareOutcome::SqlInputError { sql: "x".to_owned(), offset: 0, msg: "no such table: t".to_owned() };
    assert_eq!(diagnostic_of_outcome(other, "x", 0), None);
    let opt = PrepareOutcome::SqliteFailure { msg: Some("unknown table option: foo".to_owned()) };
    assert_eq!(diagnostic_of_outcome(opt, "abc", 5), Some(Diagnostic::error(8, "unknown table option: foo".to_owned())));
    assert_eq!(diagnostic_of_outcome(PrepareOutcome::Prepared, "abc", 5), None);
}

#[test]
fn statements_are_checked_behind_explain() {
    assert_eq!(sqlite3_editor::diagnosis::explain_sql("SELECT 1"), "EXPLAIN SELECT 1");
    assert_eq!(sqlite3_editor::diagnosis::explain_sql(""), "EXPLAIN ");
}
