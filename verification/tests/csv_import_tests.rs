use sqlite3_editor::csv_import::{import, plan_csv_import};

/// Imports `input` into table `table` of `con` as the command does: the
/// library's plan, run in one transaction.
fn import_into(con: &mut rusqlite::Connection, table: &str, delimiter: &str, input: &[u8]) -> Result<(), String> {
    let plan = import(table, delimiter, input)?;
    let tx = con.transaction().map_err(|e| e.to_string())?;
    tx.execute(&plan.create, []).map_err(|e| e.to_string())?;
    {
        let mut insert = tx.prepare(&plan.insert).map_err(|e| e.to_string())?;
        for row in &plan.rows {
            insert.execute(rusqlite::params_from_iter(row.iter())).map_err(|e| e.to_string())?;
        }
    }
    if let Some(err) = plan.row_error {
        return Err(err);
    }
    tx.commit().map_err(|e| e.to_string())
}

fn rows(con: &rusqlite::Connection) -> Vec<(String, String)> {
    con.prepare("SELECT * FROM test")
        .unwrap()
        .query_map([], |row| Ok((row.get::<_, String>(0)?, row.get::<_, String>(1)?)))
        .unwrap()
        .collect::<Result<Vec<_>, _>>()
        .unwrap()
}

fn alice_and_bob() -> Vec<(String, String)> {
    vec![("Alice".to_owned(), "20".to_owned()), ("Bob".to_owned(), "25".to_owned())]
}

#[test]
fn test_import_csv() {
    let mut con = rusqlite::Connection::open_in_memory().unwrap();
    import_into(&mut con, "test", ",", b"name,age\nAlice,20\nBob,25\n").unwrap();
    assert_eq!(rows(&con), alice_and_bob());
}

#[test]
fn test_import_csv_empty_lines() {
    let mut con = rusqlite::Connection::open_in_memory().unwrap();
    import_into(&mut con, "test", ",", b"name,age\nAlice,20\nBob,25\n\n\n").unwrap();
    assert_eq!(rows(&con), alice_and_bob());
}

#[test]
fn test_import_csv_with_inconsistent_columns() {
    let mut con = rusqlite::Connection::open_in_memory().unwrap();
    assert_eq!(
        import_into(&mut con, "test", ",", b"name,age\nAlice,20\nBob,25,30\n"),
        Err("CSV error: record 2 (line: 3, byte: 18): found record with 3 fields, but the previous record has 2 fields".to_owned())
    );
    // Nothing was committed.
    assert!(con.prepare("SELECT * FROM test").is_err());
}

#[test]
fn test_import_tsv() {
    let mut con = rusqlite::Connection::open_in_memory().unwrap();
    import_into(&mut con, "test", "\t", b"name\tage\nAlice\t20\nBob\t25\n").unwrap();
    assert_eq!(rows(&con), alice_and_bob());
}

#[test]
fn test_empty_csv() {
    let mut con = rusqlite::Connection::open_in_memory().unwrap();
    assert!(import_into(&mut con, "test", ",", b"").unwrap_err().contains("No column headers present."));
}

#[test]
fn test_import_csv_header_only() {
    let mut con = rusqlite::Connection::open_in_memory().unwrap();
    import_into(&mut con, "test", ",", b"name,age\n").unwrap();
    assert!(rows(&con).is_empty());
}

#[test]
fn csv_import_plan_names_columns_and_keeps_rows() {
    let plan = import("my table", ";", b"a;\"b;c\"\n1;2\n3;4\n").unwrap();
    assert_eq!(plan.create, "CREATE TABLE `my table`(`a` TEXT, `b;c` TEXT)");
    assert_eq!(plan.insert, "INSERT INTO `my table` VALUES (?, ?)");
    assert_eq!(plan.rows, vec![vec!["1".to_owned(), "2".to_owned()], vec!["3".to_owned(), "4".to_owned()]]);
    assert_eq!(plan.row_error, None);
}

#[test]
fn csv_header_errors_are_reported_as_such() {
    let err = import("t", ",", b"\xff,a\n1,2\n").err().unwrap();
    assert!(err.starts_with("Failed read CSV headers: "), "{err}");
    let err = plan_csv_import("t", Err("bad".to_owned())).err().unwrap();
    assert_eq!(err, "Failed read CSV headers: bad");
    let plan = plan_csv_import("t", Ok((vec!["x".to_owned()], vec![], Some("late".to_owned())))).ok().unwrap();
    assert_eq!(plan.row_error, Some("late".to_owned()));
    assert_eq!(plan_csv_import("t", Ok((vec![], vec![], None))).err().unwrap(), "No column headers present.");
}
