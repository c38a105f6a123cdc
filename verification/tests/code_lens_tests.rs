use sqlite3_editor::code_lens::{code_lens, escape_sql_identifier, try_code_lens, CodeLens, CodeLensKind};
use sqlite3_editor::placeholders::Placeholder;
use sqlite3_editor::range::ZeroIndexedRange;
use sqlite3_editor::table_to_be_modified::TableToBeModified;

fn lens(
    kind: CodeLensKind,
    range: ZeroIndexedRange,
    stmt_executed: &str,
    cte_identifier: Option<&str>,
    placeholders: Vec<Placeholder>,
    table_to_be_shown: Option<TableToBeModified>,
) -> CodeLens {
    CodeLens {
        kind,
        range,
        stmt_executed: stmt_executed.to_owned(),
        cte_identifier: cte_identifier.map(|s| s.to_owned()),
        placeholders,
        table_to_be_shown,
    }
}

#[test]
fn mod_test_select() {
    assert_eq!(
        code_lens("SELECT 1; SELECT 2; VALUES(3);"),
        [
            lens(CodeLensKind::Select, ZeroIndexedRange::new4(0, 0, 0, 9), "SELECT 1;", None, vec![], None),
            lens(CodeLensKind::Select, ZeroIndexedRange::new4(0, 10, 0, 19), "SELECT 2;", None, vec![], None),
            lens(CodeLensKind::Select, ZeroIndexedRange::new4(0, 20, 0, 30), "VALUES(3);", None, vec![], None),
        ]
    );
}

#[test]
fn mod_test_with_clause() {
    assert_eq!(
        code_lens("WITH a AS (SELECT 1) SELECT 2;"),
        [
            lens(
                CodeLensKind::Select,
                ZeroIndexedRange::new4(0, 5, 0, 6),
                "WITH a AS (SELECT 1) SELECT * FROM `a`",
                Some("`a`"),
                vec![],
                None
            ),
            lens(CodeLensKind::Select, ZeroIndexedRange::new4(0, 0, 0, 30), "WITH a AS (SELECT 1) SELECT 2;", None, vec![], None),
        ]
    );
}

#[test]
fn mod_test_explain() {
    assert_eq!(code_lens("EXPLAIN SELECT 1;")[0].kind, CodeLensKind::Explain);
}

#[test]
fn mod_test_other() {
    assert_eq!(
        code_lens("DROP TABLE t; ATTACH 'db' as db"),
        [
            lens(CodeLensKind::Other, ZeroIndexedRange::new4(0, 0, 0, 13), "DROP TABLE t;", None, vec![], None),
            lens(CodeLensKind::Other, ZeroIndexedRange::new4(0, 14, 0, 31), "ATTACH 'db' as db", None, vec![], None),
        ]
    );
}

#[test]
fn mod_test_begin_end() {
    assert_eq!(
        code_lens("BEGIN; SELECT 1; SELECT 2; END;"),
        [lens(CodeLensKind::Other, ZeroIndexedRange::new4(0, 0, 0, 31), "BEGIN; SELECT 1; SELECT 2; END;", None, vec![], None)]
    );
}

#[test]
fn mod_test_pragma() {
    assert_eq!(
        code_lens("PRAGMA analysis_limit;"),
        [lens(CodeLensKind::Other, ZeroIndexedRange::new4(0, 0, 0, 22), "PRAGMA analysis_limit;", None, vec![], None)]
    );
}

#[test]
fn mod_test_vacuum() {
    assert_eq!(
        code_lens("VACUUM;"),
        [lens(CodeLensKind::Other, ZeroIndexedRange::new4(0, 0, 0, 7), "VACUUM;", None, vec![], None)]
    );
}

#[test]
fn mod_test_with_update() {
    assert_eq!(
        code_lens("WITH x AS (SELECT 1) UPDATE t SET a = 1;"),
        [
            lens(
                CodeLensKind::Select,
                ZeroIndexedRange::new4(0, 5, 0, 6),
                "WITH x AS (SELECT 1) SELECT * FROM `x`",
                Some("`x`"),
                vec![],
                None
            ),
            lens(
                CodeLensKind::Other,
                ZeroIndexedRange::new4(0, 0, 0, 40),
                "WITH x AS (SELECT 1) UPDATE t SET a = 1;",
                None,
                vec![],
                Some(TableToBeModified { schema: None, table: "t".to_owned() })
            ),
        ]
    );
}

#[test]
fn mod_test_placeholders() {
    assert_eq!(
        code_lens("SELECT ?, :a;"),
        [lens(
            CodeLensKind::Select,
            ZeroIndexedRange::new4(0, 0, 0, 13),
            "SELECT ?, :a;",
            None,
            vec![
                Placeholder::new(None, vec![ZeroIndexedRange::new4(0, 7, 0, 8)]),
                Placeholder::new(Some(":a".to_owned()), vec![ZeroIndexedRange::new4(0, 10, 0, 12)])
            ],
            None
        )]
    );
}

#[test]
fn mod_test_placeholders_with_prefix() {
    assert_eq!(
        code_lens("-- comment\n SELECT ?, :a;"),
        [lens(
            CodeLensKind::Select,
            ZeroIndexedRange::new4(1, 1, 1, 14),
            "SELECT ?, :a;",
            None,
            vec![
                Placeholder::new(None, vec![ZeroIndexedRange::new4(0, 7, 0, 8)]),
                Placeholder::new(Some(":a".to_owned()), vec![ZeroIndexedRange::new4(0, 10, 0, 12)])
            ],
            None
        )]
    );
}

#[test]
fn code_lens_test_test_select() {
    assert_eq!(
        code_lens("SELECT 1; SELECT 2; VALUES(3);"),
        [
            lens(CodeLensKind::Select, ZeroIndexedRange::new4(0, 0, 0, 9), "SELECT 1;", None, vec![], None),
            lens(CodeLensKind::Select, ZeroIndexedRange::new4(0, 10, 0, 19), "SELECT 2;", None, vec![], None),
            lens(CodeLensKind::Select, ZeroIndexedRange::new4(0, 20, 0, 30), "VALUES(3);", None, vec![], None),
        ]
    );
}

#[test]
fn code_lens_test_test_with_clause() {
    assert_eq!(
        code_lens("WITH a AS (SELECT 1) SELECT 2;"),
        [
            lens(
                CodeLensKind::Select,
                ZeroIndexedRange::new4(0, 5, 0, 6),
                "WITH a AS (SELECT 1) SELECT * FROM `a`",
                Some("`a`"),
                vec![],
                None
            ),
            lens(CodeLensKind::Select, ZeroIndexedRange::new4(0, 0, 0, 30), "WITH a AS (SELECT 1) SELECT 2;", None, vec![], None),
        ]
    );
}

#[test]
fn code_lens_test_test_explain() {
    assert_eq!(code_lens("EXPLAIN SELECT 1;")[0].kind, CodeLensKind::Explain);
}

#[test]
fn code_lens_test_test_other() {
    assert_eq!(
        code_lens("DROP TABLE t; ATTACH 'db' as db"),
        [
            lens(CodeLensKind::Other, ZeroIndexedRange::new4(0, 0, 0, 13), "DROP TABLE t;", None, vec![], None),
            lens(CodeLensKind::Other, ZeroIndexedRange::new4(0, 14, 0, 31), "ATTACH 'db' as db", None, vec![], None),
        ]
    );
}

#[test]
fn code_lens_test_test_begin_end() {
    assert_eq!(
        code_lens("BEGIN; SELECT 1; SELECT 2; END;"),
        [lens(CodeLensKind::Other, ZeroIndexedRange::new4(0, 0, 0, 31), "BEGIN; SELECT 1; SELECT 2; END;", None, vec![], None)]
    );
}

#[test]
fn code_lens_test_test_pragma() {
    assert_eq!(
        code_lens("PRAGMA analysis_limit;"),
        [lens(CodeLensKind::Other, ZeroIndexedRange::new4(0, 0, 0, 22), "PRAGMA analysis_limit;", None, vec![], None)]
    );
}

#[test]
fn code_lens_test_test_vacuum() {
    assert_eq!(
        code_lens("VACUUM;"),
        [lens(CodeLensKind::Other, ZeroIndexedRange::new4(0, 0, 0, 7), "VACUUM;", None, vec![], None)]
    );
}

#[test]
fn code_lens_test_test_with_update() {
    assert_eq!(
        code_lens("WITH x AS (SELECT 1) UPDATE t SET a = 1;"),
        [
            lens(
                CodeLensKind::Select,
                ZeroIndexedRange::new4(0, 5, 0, 6),
                "WITH x AS (SELECT 1) SELECT * FROM `x`",
                Some("`x`"),
                vec![],
                None
            ),
            lens(
                CodeLensKind::Other,
                ZeroIndexedRange::new4(0, 0, 0, 40),
                "WITH x AS (SELECT 1) UPDATE t SET a = 1;",
                None,
                vec![],
                Some(TableToBeModified { schema: None, table: "t".to_owned() })
            ),
        ]
    );
}

#[test]
fn code_lens_test_test_placeholders() {
    assert_eq!(
        code_lens("SELECT ?, :a;"),
        [lens(
            CodeLensKind::Select,
            ZeroIndexedRange::new4(0, 0, 0, 13),
            "SELECT ?, :a;",
            None,
            vec![
                Placeholder::new(None, vec![ZeroIndexedRange::new4(0, 7, 0, 8)]),
                Placeholder::new(Some(":a".to_owned()), vec![ZeroIndexedRange::new4(0, 10, 0, 12)])
            ],
            None
        )]
    );
}

#[test]
fn code_lens_test_test_placeholders_with_prefix() {
    assert_eq!(
        code_lens("-- comment\n SELECT ?, :a;"),
        [lens(
            CodeLensKind::Select,
            ZeroIndexedRange::new4(1, 1, 1, 14),
            "SELECT ?, :a;",
            None,
            vec![
                Placeholder::new(None, vec![ZeroIndexedRange::new4(0, 7, 0, 8)]),
                Placeholder::new(Some(":a".to_owned()), vec![ZeroIndexedRange::new4(0, 10, 0, 12)])
            ],
            None
        )]
    );
}

#[test]
fn escape_doubles_backticks() {
    assert_eq!(escape_sql_identifier("a"), "`a`");
    assert_eq!(escape_sql_identifier("a`b"), "`a``b`");
    assert_eq!(escape_sql_identifier(""), "``");
}

#[test]
fn question_zero_gives_no_lenses() {
    assert_eq!(try_code_lens("SELECT ?0"), None);
    assert!(try_code_lens("SELECT ?1").is_some());
}

#[test]
fn unknown_statements_have_no_lens() {
    assert_eq!(code_lens("foo bar;"), vec![]);
    assert_eq!(code_lens("SELECT 'a"), vec![]);
}
