use std::rc::Rc;

use sqlite3_editor::commands::{
    assert_readonly_query, create_table_statement, insert_statement, trim_chars, CSVExportOptions, QueryOptions,
    ReadOnlyViolation, ServerCommand,
};
use sqlite3_editor::location::ZeroIndexedLocation;
use sqlite3_editor::range::ZeroIndexedRange;
use sqlite3_editor::records::{ColumnarBuffer, Records};
use sqlite3_editor::schema::{ColumnOrigin, ColumnOriginAndIsRowId, TableType};
use sqlite3_editor::split_statements::decimal_chars;
use sqlite3_editor::text::text_lines;

#[test]
fn offset_at_counts_characters_of_previous_lines() {
    let s = "ab\ncdé\nf";
    assert_eq!(ZeroIndexedLocation::new(0, 1).offset_at(s), 1);
    assert_eq!(ZeroIndexedLocation::new(1, 2).offset_at(s), 5);
    assert_eq!(ZeroIndexedLocation::new(2, 0).offset_at(s), 7);
    assert_eq!(ZeroIndexedLocation::new(5, 1).offset_at(s), 10);
}

#[test]
fn sub_is_relative_position() {
    let a = ZeroIndexedLocation::new(3, 5);
    assert_eq!(a.sub(&ZeroIndexedLocation::new(3, 2)), ZeroIndexedLocation::new(0, 3));
    assert_eq!(a.sub(&ZeroIndexedLocation::new(1, 9)), ZeroIndexedLocation::new(2, 5));
    assert_eq!(a.sub(&ZeroIndexedLocation::new(4, 0)), ZeroIndexedLocation::new(0, 5));
    let mut b = a;
    b.sub_assign(&ZeroIndexedLocation::new(3, 7));
    assert_eq!(b, ZeroIndexedLocation::new(0, 0));
}

#[test]
fn locations_are_ordered_by_line_then_column() {
    assert!(ZeroIndexedLocation::new(0, 9).lt(&ZeroIndexedLocation::new(1, 0)));
    assert!(ZeroIndexedLocation::new(1, 2).le(&ZeroIndexedLocation::new(1, 2)));
    assert!(!ZeroIndexedLocation::new(1, 3).le(&ZeroIndexedLocation::new(1, 2)));
}

#[test]
fn get_text_over_lines() {
    let lines = text_lines("abc\r\ndef\nghi");
    assert_eq!(lines, vec!["abc", "def", "ghi"]);
    assert_eq!(ZeroIndexedRange::new4(0, 1, 2, 2).get_text(&lines), "bc\ndef\ngh");
    assert_eq!(ZeroIndexedRange::new4(1, 1, 1, 9).get_text(&lines), "ef");
    assert!(!ZeroIndexedRange::new4(0, 2, 0, 1).fits(&lines));
    assert!(!ZeroIndexedRange::new4(0, 0, 3, 0).fits(&lines));
    assert!(ZeroIndexedRange::new4(0, 0, 2, 3).fits(&lines));
    let w = ZeroIndexedRange::new4(2, 0, 2, 3).get_text_with_range(&lines);
    assert_eq!(w.value, "ghi");
    assert_eq!(w.range, ZeroIndexedRange::new4(2, 0, 2, 3));
}

#[test]
fn table_type_from_name() {
    assert_eq!(TableType::from("table"), TableType::Table);
    assert_eq!(TableType::from("view"), TableType::View);
    assert_eq!(TableType::from("virtual"), TableType::Virtual);
    assert_eq!(TableType::from("shadow"), TableType::Shadow);
    assert_eq!(TableType::from("Table"), TableType::Other);
}

#[test]
fn column_origin_keeps_its_fields() {
    let o = ColumnOrigin::new("main".to_owned(), "t".to_owned(), "c".to_owned());
    let r = ColumnOriginAndIsRowId::new(true, o);
    assert_eq!(
        r,
        ColumnOriginAndIsRowId { database: "main".to_owned(), table: "t".to_owned(), column: "c".to_owned(), is_rowid: true }
    );
}

#[test]
fn server_commands_are_read_from_lines() {
    assert_eq!(ServerCommand::from_line("query\n"), Some(ServerCommand::Query));
    assert_eq!(ServerCommand::from_line("  code_lens \r\n"), Some(ServerCommand::CodeLens));
    assert_eq!(ServerCommand::from_line("disconnect_temporarily"), Some(ServerCommand::DisconnectTemporarily));
    assert_eq!(ServerCommand::from_line("Query"), None);
    assert_eq!(ServerCommand::from_line(""), None);
    assert_eq!(trim_chars(&" \u{3000}a b\t".chars().collect::<Vec<_>>()), vec!['a', ' ', 'b']);
}

#[test]
fn readonly_mode_refuses_writes_and_pre_statements() {
    assert_eq!(assert_readonly_query("SELECT 1", &None), Ok(()));
    assert_eq!(
        assert_readonly_query("  insert into t values (1)", &None),
        Err(ReadOnlyViolation::QueryNotAllowed("  insert into t values (1)".to_owned()))
    );
    assert_eq!(assert_readonly_query("ALTER  TABLE t ADD c", &None).is_err(), true);
    assert_eq!(assert_readonly_query("ALTER VIEW", &None), Ok(()));
    assert_eq!(
        assert_readonly_query("SELECT 1", &Some("DELETE FROM t".to_owned())),
        Err(ReadOnlyViolation::PreStmtNotAllowed("DELETE FROM t".to_owned()))
    );
    assert_eq!(
        ReadOnlyViolation::PreStmtNotAllowed(String::new()).message(),
        "pre_stmt is not allowed in the read-only mode."
    );
}

#[test]
fn import_statements() {
    assert_eq!(
        create_table_statement("t`1", &vec!["a".to_owned(), "b c".to_owned()]),
        "CREATE TABLE `t``1`(`a` TEXT, `b c` TEXT)"
    );
    assert_eq!(insert_statement("t", 3), "INSERT INTO `t` VALUES (?, ?, ?)");
    assert_eq!(insert_statement("t", 0), "INSERT INTO `t` VALUES ()");
}

#[test]
fn defaults() {
    let q = QueryOptions::default();
    assert_eq!(q.changes, None);
    assert!(!q.allow_fewer_changes);
    let c = CSVExportOptions::default();
    assert_eq!(c.delimiter, ",");
    assert_eq!(c.null, "");
}

#[test]
fn columnar_buffer_pads_and_cuts() {
    let mut b = ColumnarBuffer::default();
    b.get_column(2).push(7);
    b.get_column(0).push(1);
    assert_eq!(b.finish(4), vec![vec![1], vec![], vec![7], vec![]]);
    let mut b = ColumnarBuffer::default();
    b.get_column(3).push(9);
    assert_eq!(b.finish(1), vec![Vec::<u8>::new()]);
}

#[test]
fn records_keep_their_parts() {
    let cols = Rc::new(vec!["a".to_owned()]);
    let r = Records::new(vec![vec![1, 2]], 2, Rc::clone(&cols));
    assert_eq!(r.n_rows(), 2);
    assert_eq!(r.col_buf(), &[vec![1u8, 2]]);
    assert!(Rc::ptr_eq(&r.columns(), &cols));
}

#[test]
fn decimal_digits() {
    assert_eq!(decimal_chars(0), vec!['0']);
    assert_eq!(decimal_chars(1203), vec!['1', '2', '0', '3']);
    assert_eq!(decimal_chars(u64::MAX).into_iter().collect::<String>(), u64::MAX.to_string());
}

#[test]
fn readonly_violations_name_the_statement_refused() {
    let v = assert_readonly_query("SELECT 1", &Some("PRAGMA x".to_owned())).err().unwrap();
    assert_eq!(v.statement(), "PRAGMA x");
    let v = assert_readonly_query("DROP TABLE t", &Some("PRAGMA x".to_owned())).err().unwrap();
    assert_eq!(v.statement(), "DROP TABLE t");
}
