use sqlite3_editor::placeholders::{list_placeholders, parse_usize, try_list_placeholders, Placeholder};
use sqlite3_editor::range::ZeroIndexedRange;
use sqlite3_editor::split_statements::split_sqlite_statements;

fn list(sql: &str) -> Vec<Placeholder> {
    let first_stmt = &split_sqlite_statements(sql).unwrap().0[0];
    list_placeholders(first_stmt)
}

#[test]
pub fn test_list_placeholders_1() {
    assert_eq!(
        list("SELECT ?, $a"),
        vec![
            Placeholder::new(None, vec![ZeroIndexedRange::new4(0, 7, 0, 8)]),
            Placeholder::new(Some("$a".to_owned()), vec![ZeroIndexedRange::new4(0, 10, 0, 12)]),
        ]
    );
}

#[test]
pub fn test_list_placeholders_2() {
    assert_eq!(
        list("SELECT ?1, $a, ?5, ?2, ?"),
        vec![
            Placeholder::new(Some("?1".to_owned()), vec![ZeroIndexedRange::new4(0, 7, 0, 9)]),
            Placeholder::new(
                Some("$a".to_owned()),
                vec![ZeroIndexedRange::new4(0, 11, 0, 13), ZeroIndexedRange::new4(0, 19, 0, 21)]
            ),
            Placeholder::new(None, vec![]),
            Placeholder::new(None, vec![]),
            Placeholder::new(Some("?5".to_owned()), vec![ZeroIndexedRange::new4(0, 15, 0, 17)]),
            Placeholder::new(None, vec![ZeroIndexedRange::new4(0, 23, 0, 24)]),
        ],
    );
}

fn list_placeholders_with_sqlite_api(sql: &str) -> rusqlite::Result<Vec<Option<String>>> {
    let conn = rusqlite::Connection::open_in_memory()?;
    let stmt = conn.prepare(sql)?;
    Ok((1..=stmt.parameter_count()).map(|i| stmt.parameter_name(i).map(|v| v.to_owned())).collect())
}

fn compare(sql: &str) {
    let expected = list_placeholders_with_sqlite_api(sql).unwrap();
    let actual = list_placeholders(&split_sqlite_statements(sql).unwrap().0[0]);
    assert_eq!(expected.len(), actual.len());
    for i in 0..expected.len() {
        assert_eq!(actual[i].name, expected[i]);
    }
}

#[test]
pub fn test_no_placeholder() {
    compare("SELECT 1");
}

#[test]
pub fn test_placeholder_reuse() {
    compare("SELECT ?, ?, @a, ?2, ?3");
}

#[test]
pub fn test_everything() {
    compare("WITH x AS (SELECT @a) SELECT ?, ?, ?10, :10, @10, $10, :aa, @aa, $aa, ?12, ?, :1a1");
}

#[test]
pub fn test_issue_65() {
    compare("SELECT 1_2");
}

#[test]
fn ranges_are_relative_to_the_statement() {
    let stmts = split_sqlite_statements("SELECT 1;\n  SELECT ?;").unwrap().0;
    assert_eq!(list_placeholders(&stmts[1]), vec![Placeholder::new(None, vec![ZeroIndexedRange::new4(0, 7, 0, 8)])]);
}

#[test]
fn question_zero_cannot_be_listed() {
    let stmt = &split_sqlite_statements("SELECT ?0").unwrap().0[0];
    assert_eq!(try_list_placeholders(stmt), None);
    let stmt = &split_sqlite_statements("SELECT ?1").unwrap().0[0];
    assert!(try_list_placeholders(stmt).is_some());
}

#[test]
fn parse_usize_reads_as_std_does() {
    for s in ["0", "12", "+7", "", "+", "-1", "1a", "18446744073709551615", "18446744073709551616", "007"] {
        let chars = s.chars().collect::<Vec<_>>();
        assert_eq!(parse_usize(&chars), s.parse::<usize>().ok(), "{s}");
    }
}
