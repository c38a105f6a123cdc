use sqlite3_editor::cte::parse_cte;
use sqlite3_editor::split_statements::split_sqlite_statements;
use sqlite3_editor::text::text_lines;

#[derive(Debug, Eq, PartialEq)]
struct CTEEntryString {
    ident: String,
    query: String,
}

impl CTEEntryString {
    fn new(ident: &str, query: &str) -> Self {
        Self { ident: ident.to_owned(), query: query.to_owned() }
    }
}

#[derive(Debug, Eq, PartialEq)]
struct CTEString {
    entries: Vec<CTEEntryString>,
    body: String,
}

impl CTEString {
    fn new(entries: Vec<CTEEntryString>, body: &str) -> Self {
        Self { entries, body: body.to_owned() }
    }
}

fn parse_cte_then_slice_string(sql: &str) -> CTEString {
    let cte = parse_cte(&split_sqlite_statements(sql).unwrap().0[0]).unwrap();
    let lines = text_lines(sql);
    CTEString {
        entries: cte
            .entries
            .iter()
            .map(|e| CTEEntryString {
                ident: e.ident.range.get_text(&lines),
                query: e.query_range.get_text(&lines),
            })
            .collect::<Vec<_>>(),
        body: cte.body_range.get_text(&lines),
    }
}

#[test]
fn parse_cte_test_simple() {
    assert_eq!(
        parse_cte_then_slice_string("WITH ident1 AS (SELECT 1), ident2 AS (SELECT 2) SELECT 3;"),
        CTEString::new(
            vec![CTEEntryString::new("ident1", "SELECT 1"), CTEEntryString::new("ident2", "SELECT 2"),],
            "SELECT 3;"
        ),
    );
}

#[test]
fn test_nested_paren() {
    assert_eq!(
        parse_cte_then_slice_string("WITH ident1 AS (SELECT fn() AS a), ident2 AS (SELECT 2) SELECT 3;"),
        CTEString::new(
            vec![
                CTEEntryString::new("ident1", "SELECT fn() AS a"),
                CTEEntryString::new("ident2", "SELECT 2"),
            ],
            "SELECT 3;"
        ),
    );
}

#[test]
fn test_materialized() {
    assert_eq!(
        parse_cte_then_slice_string(
            "WITH ident1 AS MATERIALIZED (SELECT 1), ident2 AS NOT MATERIALIZED (SELECT 2) SELECT 3;"
        ),
        CTEString::new(
            vec![CTEEntryString::new("ident1", "SELECT 1"), CTEEntryString::new("ident2", "SELECT 2"),],
            "SELECT 3;"
        ),
    );
}

#[test]
fn test_recursive() {
    assert_eq!(
        parse_cte_then_slice_string(
            "
WITH RECURSIVE
  cnt(x) AS (VALUES(1) UNION ALL SELECT x+1 FROM cnt WHERE x<1000000)
SELECT x FROM cnt;"
        ),
        CTEString::new(
            vec![CTEEntryString::new("cnt", "VALUES(1) UNION ALL SELECT x+1 FROM cnt WHERE x<1000000"),],
            "SELECT x FROM cnt;"
        ),
    );
}

#[test]
fn test_values() {
    assert_eq!(
        parse_cte_then_slice_string("WITH x AS (VALUES(1)) VALUES(2);"),
        CTEString::new(vec![CTEEntryString::new("x", "VALUES(1)"),], "VALUES(2);"),
    );
}

#[test]
fn test_non_cte() {
    assert_eq!(parse_cte(&split_sqlite_statements(";").unwrap().0[0]), None);
    assert_eq!(parse_cte(&split_sqlite_statements("SELECT 1").unwrap().0[0]), None);
}

#[test]
fn with_clause_without_statement_is_no_cte() {
    assert_eq!(parse_cte(&split_sqlite_statements("WITH a AS (SELECT 1)").unwrap().0[0]), None);
}
