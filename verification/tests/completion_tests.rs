use std::collections::HashSet;

use sqlite3_editor::completion::{
    add_columns, can_alias_follow, complete, is_token_before_cursor, AliasableToken, ColumnCompletion, Completions,
    TableCompletion, TokenType,
};
use sqlite3_editor::location::ZeroIndexedLocation;
use sqlite3_editor::range::{WithZeroIndexedRange, ZeroIndexedRange};
use sqlite3_editor::schema::{TableName, TableType};
use sqlite3_editor::token::{SQLite3Keyword, SQLite3Token};

fn hash_set(values: &[&str]) -> HashSet<String> {
    values.iter().map(|v| v.to_string()).collect()
}

fn set_of(values: &[String]) -> HashSet<String> {
    values.iter().cloned().collect()
}

fn loc(line: usize, column: usize) -> ZeroIndexedLocation {
    ZeroIndexedLocation { line, column }
}

fn setup() -> rusqlite::Connection {
    let conn = rusqlite::Connection::open_in_memory().unwrap();
    conn.execute("CREATE TABLE table_name(column_name)", ()).unwrap();
    conn
}

/// Runs a completion as the server does: the tables of the database, the
/// context, then the columns of the tables the statement refers to.
fn run_complete(conn: &rusqlite::Connection, sql: &str, position: &ZeroIndexedLocation) -> Completions {
    let mut stmt = conn.prepare("SELECT schema, name, type FROM pragma_table_list").unwrap();
    let tables = stmt
        .query_map([], |row| {
            let t: String = row.get(2)?;
            Ok(TableName { database: row.get(0)?, name: row.get(1)?, type_: TableType::from_type_name(&t) })
        })
        .unwrap()
        .map(|r| r.unwrap())
        .collect::<Vec<_>>();
    let (mut c, fetch) = complete(sql, position, &tables);
    for t in &fetch {
        let mut s = conn.prepare(&format!("SELECT name FROM pragma_table_xinfo(?, ?)")).unwrap();
        let cols = s
            .query_map([t.name.as_str(), t.database.as_str()], |row| row.get::<_, String>(0))
            .unwrap()
            .map(|r| r.unwrap())
            .collect::<Vec<_>>();
        add_columns(&mut c, t, &cols);
    }
    c
}

#[test]
fn completion_test_simple() {
    let c = run_complete(
        &setup(),
        "WITH cte_ident AS (SELECT 1 as as_ident1) SELECT 1 as as_ident2 FROM table_name",
        &loc(0, 10),
    );
    let tables: HashSet<TableCompletion> = c.table_names.iter().cloned().collect();
    assert_eq!(
        tables,
        HashSet::from([
            TableCompletion { schema: "main".to_owned(), table: "sqlite_schema".to_owned(), type_: TableType::Table },
            TableCompletion {
                schema: "temp".to_owned(),
                table: "sqlite_temp_schema".to_owned(),
                type_: TableType::Table,
            },
            TableCompletion { schema: "main".to_owned(), table: "table_name".to_owned(), type_: TableType::Table },
        ])
    );
    assert_eq!(set_of(&c.schema_names), hash_set(&["main", "temp"]));
    let cols: HashSet<ColumnCompletion> = c.columns_in_tables_that_are_referenced_in_source.iter().cloned().collect();
    assert_eq!(
        cols,
        HashSet::from([ColumnCompletion {
            schema: "main".to_owned(),
            table: "table_name".to_owned(),
            column: "column_name".to_owned(),
        }])
    );
    assert_eq!(set_of(&c.cte_names), hash_set(&["cte_ident"]));
    assert_eq!(set_of(&c.as_clauses), hash_set(&["as_ident1", "as_ident2"]));
    assert_eq!(c.last_tokens, vec![TokenType::StartOfStatement, TokenType::Other]);
    assert_eq!(c.last_schema, None);
    assert_eq!(c.last_table, None);
    assert_eq!(c.last_create_trigger_table, None);
}

#[test]
fn test_quoted_ident() {
    let result = run_complete(
        &setup(),
        r#"
WITH
    [ident1] AS (SELECT 1),
    `ident2` AS (SELECT 1),
    "ident3" AS (SELECT 1)
SELECT
    1 AS [ident4],
    1 AS `ident5`,
    1 AS "ident6""#,
        &loc(3, 0),
    );
    assert_eq!(set_of(&result.cte_names), hash_set(&["ident1", "ident2", "ident3"]));
    assert_eq!(set_of(&result.as_clauses), hash_set(&["ident4", "ident5", "ident6"]));
}

#[test]
fn test_as_clause_without_as() {
    let result = run_complete(
        &setup(),
        r#"
SELECT
    1 ident1,
    1 "ident2",
    +10 ident3,
    -10 ident4,
    'a' ident5,
    b + c ident6,
    (d < e) ident7,
    x'ff' ident8"#,
        &loc(3, 0),
    );
    assert_eq!(
        set_of(&result.as_clauses),
        hash_set(&["ident1", "ident2", "ident3", "ident4", "ident5", "ident6", "ident7", "ident8"])
    );
}

fn is_start_of_stmt(c: Completions) {
    assert_eq!(c.last_tokens, vec![TokenType::StartOfStatement]);
}

fn is_not_start_of_stmt(c: Completions) {
    assert_ne!(c.last_tokens, vec![TokenType::StartOfStatement]);
}

#[test]
fn test_special_case_start_of_statement() {
    is_start_of_stmt(run_complete(&setup(), r#""#, &loc(0, 0)));
    is_start_of_stmt(run_complete(&setup(), r#"SELECT"#, &loc(0, 0)));
    is_start_of_stmt(run_complete(&setup(), r#"SELECT"#, &loc(0, 3)));
    is_start_of_stmt(run_complete(&setup(), r#"SELECT"#, &loc(0, 6)));
    is_start_of_stmt(run_complete(&setup(), r#"SEL"#, &loc(0, 0)));
    is_start_of_stmt(run_complete(&setup(), r#"SEL"#, &loc(0, 1)));
    is_start_of_stmt(run_complete(&setup(), r#"SEL"#, &loc(0, 3)));
    is_start_of_stmt(run_complete(&setup(), r#"SEL"#, &loc(0, 3)));
    is_not_start_of_stmt(run_complete(&setup(), r#"SEL "#, &loc(0, 4)));
    is_not_start_of_stmt(run_complete(&setup(), r#"SEL a"#, &loc(0, 5)));
    is_not_start_of_stmt(run_complete(&setup(), r#"SELECT a; SELECT"#, &loc(0, 8)));
    is_start_of_stmt(run_complete(&setup(), r#"SELECT a; SELECT"#, &loc(0, 9)));
    is_start_of_stmt(run_complete(&setup(), r#"SELECT a; SELECT"#, &loc(0, 10)));
    is_start_of_stmt(run_complete(&setup(), r#"SELECT a; SELECT"#, &loc(0, 11)));
}

fn is_after_join(mut c: Completions) {
    assert_eq!(c.last_tokens.pop(), Some(TokenType::JOIN));
}

fn is_not_after_join(mut c: Completions) {
    assert_ne!(c.last_tokens.pop(), Some(TokenType::JOIN));
}

#[test]
fn test_special_case_after_join() {
    is_not_after_join(run_complete(&setup(), r#"SELECT * FROM t JOIN"#, &loc(0, 19)));
    is_not_after_join(run_complete(&setup(), r#"SELECT * FROM t JOIN"#, &loc(0, 20)));
    is_after_join(run_complete(&setup(), r#"SELECT * FROM t JOIN "#, &loc(0, 21)));
    is_after_join(run_complete(&setup(), r#"SELECT * FROM t JOIN a"#, &loc(0, 21)));
    is_after_join(run_complete(&setup(), r#"SELECT * FROM t JOIN a"#, &loc(0, 22)));
}

fn last_two(mut c: Completions) -> (Option<TokenType>, Option<TokenType>) {
    let a = c.last_tokens.pop();
    let b = c.last_tokens.pop();
    (a, b)
}

fn is_after_schema_period(c: Completions) {
    assert_eq!(last_two(c), (Some(TokenType::Period), Some(TokenType::SchemaIdent)));
}

fn is_not_after_schema_period(c: Completions) {
    assert_ne!(last_two(c), (Some(TokenType::Period), Some(TokenType::SchemaIdent)));
}

#[test]
fn test_after_schema_period() {
    is_after_schema_period(run_complete(&setup(), r#"SELECT * FROM main."#, &loc(0, 19)));
    is_after_schema_period(run_complete(&setup(), r#"SELECT * FROM main. "#, &loc(0, 19)));
    is_after_schema_period(run_complete(&setup(), r#"SELECT * FROM main.ab "#, &loc(0, 19)));
    is_after_schema_period(run_complete(&setup(), r#"SELECT * FROM main.ab "#, &loc(0, 20)));
    is_after_schema_period(run_complete(&setup(), r#"SELECT * FROM main.ab "#, &loc(0, 21)));
    is_not_after_schema_period(run_complete(&setup(), r#"SELECT * FROM main.ab "#, &loc(0, 22)));
}

fn is_after_table_period(c: Completions) {
    assert_eq!(last_two(c), (Some(TokenType::Period), Some(TokenType::TableIdent)));
}

fn is_not_after_table_period(c: Completions) {
    assert_ne!(last_two(c), (Some(TokenType::Period), Some(TokenType::TableIdent)));
}

#[test]
fn test_after_table_period() {
    is_after_table_period(run_complete(&setup(), r#"SELECT * FROM abcd."#, &loc(0, 19)));
    is_after_table_period(run_complete(&setup(), r#"SELECT * FROM abcd. "#, &loc(0, 19)));
    is_after_table_period(run_complete(&setup(), r#"SELECT * FROM abcd.ab "#, &loc(0, 19)));
    is_after_table_period(run_complete(&setup(), r#"SELECT * FROM abcd.ab "#, &loc(0, 20)));
    is_after_table_period(run_complete(&setup(), r#"SELECT * FROM abcd.ab "#, &loc(0, 21)));
    is_not_after_table_period(run_complete(&setup(), r#"SELECT * FROM abcd.ab "#, &loc(0, 22)));
}

fn is_after_as_paren(c: Completions) {
    assert_eq!(last_two(c), (Some(TokenType::LParen), Some(TokenType::AS)));
}

fn is_not_after_as_paren(c: Completions) {
    assert_ne!(last_two(c), (Some(TokenType::LParen), Some(TokenType::AS)));
}

#[test]
fn test_after_as_paren() {
    is_not_after_as_paren(run_complete(&setup(), r#"WITH a AS ("#, &loc(0, 10)));
    is_after_as_paren(run_complete(&setup(), r#"WITH a AS ("#, &loc(0, 11)));
    is_after_as_paren(run_complete(&setup(), r#"WITH a AS (a"#, &loc(0, 12)));
}

#[test]
fn test_temp_schema() {
    let mut result = run_complete(&setup(), r#"SELECT * FROM temp."#, &loc(0, 19));
    assert_eq!(result.last_tokens.pop(), Some(TokenType::Period));
    assert_eq!(result.last_tokens.pop(), Some(TokenType::SchemaIdent));
    assert_eq!(result.last_schema, Some("temp".to_owned()));
}

#[test]
fn test_nocase() {
    let c = run_complete(&setup(), r#"SELECT "Table_name". FROM "Table_name""#, &loc(0, 20));
    let cols: HashSet<ColumnCompletion> = c.columns_in_tables_that_are_referenced_in_source.iter().cloned().collect();
    assert_eq!(
        cols,
        HashSet::from([ColumnCompletion {
            schema: "main".to_owned(),
            table: "table_name".to_owned(),
            column: "column_name".to_owned(),
        }])
    );
}

#[test]
fn test_group() {
    assert_eq!(
        run_complete(&setup(), r#"INSERT INTO t (1, 2)"#, &loc(0, 20)).last_tokens,
        vec![
            TokenType::StartOfStatement,
            TokenType::INSERT,
            TokenType::INTO,
            TokenType::TableIdent,
            TokenType::Group
        ]
    );
}

#[test]
fn test1() {
    let db = setup();
    for stmt in &[r#"CREATE TABLE t1(x);"#, r#"CREATE TABLE t2(y);"#] {
        db.execute(stmt, ()).unwrap();
    }
    let mut result = run_complete(&db, r#"SELECT * FROM t1 A, JOIN t2 B WHERE t1.x = t2."#, &loc(0, 46));
    assert_eq!(result.last_tokens.pop().unwrap(), TokenType::Period);
    assert_eq!(result.last_tokens.pop().unwrap(), TokenType::TableIdent);
    assert_eq!(result.last_schema, None);
    assert_eq!(result.last_table, Some("t2".to_owned()));
}

#[test]
fn test_last_table() {
    let result = run_complete(&setup(), r#"SELECT a.b, c."#, &loc(0, 14));
    assert_eq!(result.last_table, Some("c".to_owned()));
}

#[test]
fn test_last_schema() {
    let result = run_complete(&setup(), r#"SELECT * FROM temp.b, main."#, &loc(0, 27));
    assert_eq!(result.last_schema, Some("main".to_owned()));
}

#[test]
fn test_last_create_trigger_table() {
    let result = run_complete(&setup(), r#"CREATE TRIGGER trigger1 BEFORE INSERT ON "table1" BEGIN"#, &loc(0, 46));
    assert_eq!(result.last_create_trigger_table, Some("table1".to_owned()));
}

#[test]
fn test_pragma_encoding() {
    let result = run_complete(&setup(), r#"PRAGMA main.encoding = "#, &loc(0, 23));
    assert_eq!(
        result.last_tokens,
        [
            TokenType::StartOfStatement,
            TokenType::PRAGMA,
            TokenType::SchemaIdent,
            TokenType::Period,
            TokenType::TableIdent,
            TokenType::Equal
        ],
    );
    assert_eq!(result.last_table, Some("encoding".to_owned()));
}

#[test]
fn alias_follows_identifiers_and_as() {
    let ident = SQLite3Token::Identifier("a".to_owned(), None);
    assert_eq!(can_alias_follow(&ident, None), Some(AliasableToken::Ident("a".to_owned())));
    let as_kw = SQLite3Token::Keyword(SQLite3Keyword::AS);
    assert_eq!(can_alias_follow(&as_kw, None), Some(AliasableToken::Other));
    assert_eq!(
        can_alias_follow(&as_kw, Some(AliasableToken::Ident("t".to_owned()))),
        Some(AliasableToken::Ident("t".to_owned()))
    );
    assert_eq!(can_alias_follow(&SQLite3Token::Whitespace(false), Some(AliasableToken::Other)), Some(AliasableToken::Other));
    assert_eq!(can_alias_follow(&SQLite3Token::Comma, Some(AliasableToken::Other)), None);
    assert_eq!(TokenType::from(&SQLite3Token::Keyword(SQLite3Keyword::NOT)), TokenType::NOTE);
}

#[test]
fn words_at_the_cursor_are_not_before_it() {
    let word = WithZeroIndexedRange {
        value: SQLite3Token::Identifier("ab".to_owned(), None),
        range: ZeroIndexedRange::new4(0, 0, 0, 2),
    };
    assert!(!is_token_before_cursor(&word, &loc(0, 2)));
    assert!(is_token_before_cursor(&word, &loc(0, 3)));
    let period = WithZeroIndexedRange { value: SQLite3Token::Period, range: ZeroIndexedRange::new4(0, 2, 0, 3) };
    assert!(is_token_before_cursor(&period, &loc(0, 3)));
}
