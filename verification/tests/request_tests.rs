use sqlite3_editor::commands::{import_reader, import_statements, ImportReader, ImportingFileFormat, ServerCommand};
use sqlite3_editor::find_widget::{chars_contain, find_widget_compare};
use sqlite3_editor::cli_error::CLIError;
use sqlite3_editor::query_request::{changes_accepted, check_prepared_statement, editor_request, placeholders_match, EditorRequest};
use sqlite3_editor::schema::{
    count_references_query, first_sql, is_rowid_column, foreign_key_list, has_rowid_column, schema_column, ForeignKeyListEntry, TableSchemaColumnForeignKey,
    TableType, TableXInfoRow,
};

fn s(x: &str) -> String {
    x.to_owned()
}

#[test]
fn find_widget_whole_word_case_sensitive_is_equality() {
    assert!(find_widget_compare("abc", "abc", true, true, false));
    assert!(!find_widget_compare("abc", "ab", true, true, false));
    assert!(!find_widget_compare("ABC", "abc", true, true, false));
}

#[test]
fn find_widget_ignores_case_when_asked() {
    assert!(find_widget_compare("ABC", "abc", true, false, false));
    assert!(find_widget_compare("xxÄBCyy", "äbc", false, false, false));
    assert!(!find_widget_compare("xxÄBCyy", "äbc", false, true, false));
}

#[test]
fn find_widget_substring_search() {
    assert!(find_widget_compare("hello world", "o w", false, true, false));
    assert!(find_widget_compare("hello", "", false, true, false));
    assert!(!find_widget_compare("hello", "hello!", false, true, false));
}

#[test]
fn find_widget_regex_search() {
    assert!(find_widget_compare("foo bar", "ba.", false, true, true));
    assert!(find_widget_compare("foo BAR", "ba.", false, false, true));
    assert!(!find_widget_compare("foo BAR", "ba.", false, true, true));
    // a whole word only
    assert!(find_widget_compare("foo bar", "bar", true, true, true));
    assert!(!find_widget_compare("foobar", "bar", true, true, true));
    // an empty whole-word pattern never matches, an invalid pattern neither
    assert!(!find_widget_compare("foo", "", true, true, true));
    assert!(!find_widget_compare("foo", "(", false, true, true));
    // `.` matches newlines
    assert!(find_widget_compare("a\nb", "a.b", false, true, true));
}

#[test]
fn substring_search_finds_the_last_position() {
    let hay: Vec<char> = "abcd".chars().collect();
    let needle: Vec<char> = "cd".chars().collect();
    assert!(chars_contain(&hay, &needle));
    let needle: Vec<char> = "ce".chars().collect();
    assert!(!chars_contain(&hay, &needle));
}

#[test]
fn editor_pragmas_are_recognized() {
    assert_eq!(editor_request("EDITOR_PRAGMA database_label", &vec![]), Ok(EditorRequest::DatabaseLabel));
    assert_eq!(editor_request("EDITOR_PRAGMA list_tables", &vec![]), Ok(EditorRequest::ListTables));
    assert_eq!(
        editor_request("EDITOR_PRAGMA table_schema", &vec![Some(s("main")), Some(s("t"))]),
        Ok(EditorRequest::TableSchema { database: s("main"), table_name: s("t") })
    );
    assert_eq!(
        editor_request("EDITOR_PRAGMA list_references", &vec![Some(s("t")), Some(s("x")), None]),
        Ok(EditorRequest::ListReferences { table_name: s("t"), column_name: s("x") })
    );
    assert_eq!(
        editor_request("EDITOR_PRAGMA load_extensions", &vec![Some(s("a")), None, Some(s("b"))]),
        Ok(EditorRequest::LoadExtensions { extensions: vec![s("a"), s("b")] })
    );
    assert_eq!(editor_request("SELECT 1", &vec![]), Ok(EditorRequest::Statement));
    assert_eq!(editor_request(" EDITOR_PRAGMA list_tables", &vec![]), Ok(EditorRequest::Statement));
}

#[test]
fn editor_pragmas_check_their_arguments() {
    assert_eq!(
        editor_request("EDITOR_PRAGMA list_references", &vec![Some(s("t")), Some(s("x"))]),
        Err(s("invalid arguments for list_references"))
    );
    assert_eq!(
        editor_request("EDITOR_PRAGMA table_schema", &vec![Some(s("main")), None]),
        Err(s("invalid arguments table_schema"))
    );
    assert_eq!(editor_request("EDITOR_PRAGMA query_schema", &vec![]), Err(s("invalid argument for query_schema")));
}

#[test]
fn changed_rows_are_checked() {
    assert!(changes_accepted(None, 7, false));
    assert!(changes_accepted(Some(2), 2, false));
    assert!(!changes_accepted(Some(2), 1, false));
    assert!(changes_accepted(Some(2), 1, true));
    assert!(!changes_accepted(Some(2), 3, true));
}

#[test]
fn placeholders_must_match_in_order() {
    assert!(placeholders_match(&vec![None, Some(s(":a"))], &vec![None, Some(s(":a"))]));
    assert!(!placeholders_match(&vec![None, Some(s(":a"))], &vec![Some(s(":a")), None]));
    assert!(!placeholders_match(&vec![None], &vec![None, None]));
}

#[test]
fn import_reader_by_format() {
    assert_eq!(import_reader(ImportingFileFormat::Csv, ";"), Some(ImportReader::Delimited(b';')));
    assert_eq!(import_reader(ImportingFileFormat::Tsv, ";"), Some(ImportReader::Delimited(b'\t')));
    assert_eq!(import_reader(ImportingFileFormat::Json, ""), Some(ImportReader::Json));
    assert_eq!(import_reader(ImportingFileFormat::Csv, ""), None);
}

#[test]
fn import_statements_need_columns() {
    assert_eq!(import_statements("t", &vec![]), Err(s("No column headers present.")));
    assert_eq!(
        import_statements("t", &vec![s("name"), s("a`ge")]),
        Ok((s("CREATE TABLE `t`(`name` TEXT, `a``ge` TEXT)"), s("INSERT INTO `t` VALUES (?, ?)")))
    );
}

#[test]
fn command_names_read_back_with_whitespace() {
    assert_eq!(ServerCommand::from_line("  code_lens \t\n"), Some(ServerCommand::CodeLens));
    assert_eq!(ServerCommand::from_line("\u{3000}disconnect_temporarily\r\n"), Some(ServerCommand::DisconnectTemporarily));
}

fn fk_entry(id: i64, seq: i64, table: &str, from: &str, to: Option<&str>) -> ForeignKeyListEntry {
    ForeignKeyListEntry {
        id,
        seq,
        table: s(table),
        from: s(from),
        to: to.map(s),
        on_update: s("NO ACTION"),
        on_delete: s("CASCADE"),
        match_: s("NONE"),
    }
}

fn fk(id: i64, seq: i64, table: &str, to: &str) -> TableSchemaColumnForeignKey {
    TableSchemaColumnForeignKey {
        id,
        seq,
        table: s(table),
        to: s(to),
        on_update: s("NO ACTION"),
        on_delete: s("CASCADE"),
        match_: s("NONE"),
    }
}

#[test]
fn foreign_keys_are_grouped_by_column() {
    let list = foreign_key_list(&vec![
        fk_entry(0, 0, "p", "a", Some("x")),
        fk_entry(1, 0, "q", "b", Some("y")),
        fk_entry(2, 0, "r", "a", Some("z")),
    ]);
    assert_eq!(
        list,
        vec![(s("a"), vec![fk(0, 0, "p", "x"), fk(2, 0, "r", "z")]), (s("b"), vec![fk(1, 0, "q", "y")])]
    );
}

#[test]
fn foreign_keys_without_target_are_left_out_whole() {
    let list = foreign_key_list(&vec![
        fk_entry(0, 0, "p", "a", Some("x")),
        fk_entry(0, 1, "p", "b", None),
        fk_entry(1, 0, "q", "c", Some("y")),
    ]);
    assert_eq!(list, vec![(s("c"), vec![fk(1, 0, "q", "y")])]);
}

#[test]
fn rowid_columns() {
    assert!(has_rowid_column(TableType::Table, false));
    assert!(has_rowid_column(TableType::Virtual, false));
    assert!(!has_rowid_column(TableType::Table, true));
    assert!(!has_rowid_column(TableType::View, false));
}

#[test]
fn schema_columns_from_table_xinfo() {
    let row = TableXInfoRow {
        cid: 0,
        name: s("x"),
        type_: s("INTEGER"),
        notnull: true,
        dflt_value: None,
        pk: true,
        hidden: 0,
    };
    let c = schema_column(row.clone(), TableType::Table, true, vec![]);
    assert_eq!(c.type_, "INTEGER");
    assert!(c.auto_increment);
    let c = schema_column(row, TableType::View, false, vec![]);
    assert_eq!(c.type_, "");
    assert!(!c.auto_increment);
}

#[test]
fn first_sql_takes_the_first_row() {
    assert_eq!(first_sql(Some(vec![Some(s("CREATE")), None])), Some(s("CREATE")));
    assert_eq!(first_sql(Some(vec![])), None);
    assert_eq!(first_sql(None), None);
}

fn xinfo(name: &str, type_: &str, pk: bool) -> TableXInfoRow {
    TableXInfoRow { cid: 0, name: s(name), type_: s(type_), notnull: false, dflt_value: None, pk, hidden: 0 }
}

#[test]
fn rowid_names_are_the_rowid_unless_a_column_has_them() {
    let rows = vec![xinfo("x", "TEXT", false)];
    assert!(is_rowid_column(&s("rowid"), &rows));
    assert!(is_rowid_column(&s("ROWID"), &rows));
    assert!(is_rowid_column(&s("_rowid_"), &rows));
    assert!(is_rowid_column(&s("oid"), &rows));
    assert!(!is_rowid_column(&s("x"), &rows));
    let rows = vec![xinfo("RowId", "TEXT", false)];
    assert!(!is_rowid_column(&s("rowid"), &rows));
    assert!(is_rowid_column(&s("oid"), &rows));
}

#[test]
fn integer_primary_key_is_the_rowid() {
    let rows = vec![xinfo("id", "Integer", true), xinfo("v", "TEXT", false)];
    assert!(is_rowid_column(&s("ID"), &rows));
    let rows = vec![xinfo("id", "INT", true)];
    assert!(!is_rowid_column(&s("id"), &rows));
    let rows = vec![xinfo("id", "INTEGER", true), xinfo("k", "INTEGER", true)];
    assert!(!is_rowid_column(&s("id"), &rows));
}

#[test]
fn count_references_query_quotes_names() {
    assert_eq!(count_references_query("t`1", "c"), "SELECT COUNT(*) FROM `t``1` WHERE `c` IS ?");
}

#[test]
fn prepared_statement_needs_as_many_parameters_as_placeholders() {
    let prepared = vec![None, Some(":a".to_string())];
    assert_eq!(
        check_prepared_statement("SELECT ?, :a", "[1]", 1, &prepared, &None),
        Err(CLIError::InvalidNumberOfParameters {
            query: "SELECT ?, :a".to_string(),
            placeholders: prepared.clone(),
            params_json: "[1]".to_string(),
        })
    );
    assert_eq!(check_prepared_statement("SELECT ?, :a", "[1,2]", 2, &prepared, &None), Ok(()));
}

#[test]
fn prepared_statement_matches_the_listed_placeholders() {
    let prepared = vec![None, Some(":a".to_string())];
    let listed = Some(vec![None, Some(":a".to_string())]);
    assert_eq!(check_prepared_statement("SELECT ?, :a", "[1,2]", 2, &prepared, &listed), Ok(()));
}

#[test]
fn prepared_statement_mismatch_shows_both_lists() {
    let prepared = vec![Some(":a".to_string())];
    assert_eq!(
        check_prepared_statement("SELECT :a", "[1]", 1, &prepared, &Some(vec![Some(":b".to_string())])),
        Err(CLIError::Other {
            message: "Failed to parse the SQL statement: [Some(\":b\")] != [Some(\":a\")]".to_string(),
            query: Some("SELECT :a".to_string()),
            params_json: Some("[1]".to_string()),
        })
    );
    let prepared = vec![None];
    assert_eq!(
        check_prepared_statement("SELECT ?", "[1]", 1, &prepared, &Some(vec![None, None])),
        Err(CLIError::Other {
            message: "Failed to parse the SQL statement: [None, None] != [None, None]".to_string(),
            query: Some("SELECT ?".to_string()),
            params_json: Some("[1]".to_string()),
        })
    );
}
