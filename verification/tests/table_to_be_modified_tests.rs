use sqlite3_editor::split_statements::split_sqlite_statements;
use sqlite3_editor::table_to_be_modified::{get_table_to_be_modified, TableToBeModified};

fn table_of(sql: &str) -> Option<TableToBeModified> {
    get_table_to_be_modified(&split_sqlite_statements(sql).unwrap().0[0].real_tokens)
}

#[test]
fn test_get_table_to_be_modified_create_table() {
    assert_eq!(table_of("CREATE TABLE table1"), Some(TableToBeModified { schema: None, table: "table1".to_owned() }));
}

#[test]
fn test_get_table_to_be_modified_insert_into() {
    assert_eq!(table_of("INSERT INTO table1"), Some(TableToBeModified { schema: None, table: "table1".to_owned() }));
}

#[test]
fn test_get_table_to_be_modified_insert_into_2() {
    assert_eq!(
        table_of("INSERT INTO \"table1\""),
        Some(TableToBeModified { schema: None, table: "table1".to_owned() })
    );
}

#[test]
fn test_get_table_to_be_modified_insert_into_3() {
    assert_eq!(
        table_of("INSERT INTO \"table 1\""),
        Some(TableToBeModified { schema: None, table: "table 1".to_owned() })
    );
}

#[test]
fn test_get_table_to_be_modified_insert_schema() {
    assert_eq!(
        table_of("INSERT INTO schema1.table1"),
        Some(TableToBeModified { schema: Some("schema1".to_owned()), table: "table1".to_owned() })
    );
}

#[test]
fn test_get_table_to_be_modified_create_table_schema() {
    assert_eq!(
        table_of("CREATE TABLE schema1.table1"),
        Some(TableToBeModified { schema: Some("schema1".to_owned()), table: "table1".to_owned() })
    );
}

#[test]
fn test_get_table_to_be_modified_create_trigger() {
    assert_eq!(
        table_of("CREATE TRIGGER trigger_insert AFTER INSERT ON t INSERT INTO table1 VALUES (1); END"),
        None
    );
}

#[test]
fn test_get_table_to_be_focused_create_table() {
    assert_eq!(table_of("CREATE TABLE table1"), Some(TableToBeModified { schema: None, table: "table1".to_owned() }));
}

#[test]
fn test_get_table_to_be_focused_insert_into() {
    assert_eq!(table_of("INSERT INTO table1"), Some(TableToBeModified { schema: None, table: "table1".to_owned() }));
}

#[test]
fn test_get_table_to_be_focused_insert_into_2() {
    assert_eq!(
        table_of("INSERT INTO \"table1\""),
        Some(TableToBeModified { schema: None, table: "table1".to_owned() })
    );
}

#[test]
fn test_get_table_to_be_focused_insert_into_3() {
    assert_eq!(
        table_of("INSERT INTO \"table 1\""),
        Some(TableToBeModified { schema: None, table: "table 1".to_owned() })
    );
}

#[test]
fn test_get_table_to_be_focused_insert_schema() {
    assert_eq!(
        table_of("INSERT INTO schema1.table1"),
        Some(TableToBeModified { schema: Some("schema1".to_owned()), table: "table1".to_owned() })
    );
}

#[test]
fn test_get_table_to_be_focused_create_table_schema() {
    assert_eq!(
        table_of("CREATE TABLE schema1.table1"),
        Some(TableToBeModified { schema: Some("schema1".to_owned()), table: "table1".to_owned() })
    );
}

#[test]
fn test_get_table_to_be_focused_create_trigger() {
    assert_eq!(
        table_of("CREATE TRIGGER trigger_insert AFTER INSERT ON t INSERT INTO table1 VALUES (1); END"),
        None
    );
}

#[test]
fn other_statements_modify_nothing() {
    assert_eq!(table_of("SELECT * FROM t"), None);
    assert_eq!(
        table_of("UPDATE OR IGNORE INTO main.t SET a = 1"),
        Some(TableToBeModified { schema: Some("main".to_owned()), table: "t".to_owned() })
    );
    assert_eq!(table_of("ALTER TABLE t ADD c"), Some(TableToBeModified { schema: None, table: "t".to_owned() }));
}
