use sqlite3_editor::json_import::{json_import_columns, json_import_row, json_import_statements};
use sqlite3_editor::pager::CacheParam;

fn record(entries: &[(&str, CacheParam)]) -> Vec<(String, CacheParam)> {
    entries.iter().map(|(k, v)| (k.to_string(), v.clone())).collect()
}

#[test]
fn json_import_needs_data() {
    assert_eq!(json_import_columns(&vec![]), Err("No data present.".to_string()));
}

#[test]
fn json_import_needs_columns() {
    assert_eq!(json_import_columns(&vec![vec![]]), Err("No column headers present.".to_string()));
}

#[test]
fn json_import_takes_the_keys_of_the_first_record() {
    let records = vec![
        record(&[("name", CacheParam::String("Alice".into())), ("age", CacheParam::I64(20))]),
        record(&[("age", CacheParam::I64(25))]),
    ];
    assert_eq!(json_import_columns(&records), Ok(vec!["name".to_string(), "age".to_string()]));
}

#[test]
fn json_import_statements_are_untyped_with_column_list() {
    let (create, insert) = json_import_statements("test", &vec!["name".to_string(), "a`ge".to_string()]);
    assert_eq!(create, "CREATE TABLE `test`(`name`, `a``ge`)");
    assert_eq!(insert, "INSERT INTO `test` (`name`, `a``ge`) VALUES (?, ?)");
}

#[test]
fn json_import_row_orders_values_by_column() {
    let r = record(&[("age", CacheParam::I64(20)), ("name", CacheParam::String("Alice".into()))]);
    let columns = vec!["name".to_string(), "age".to_string()];
    assert_eq!(
        json_import_row(&r, &columns, 0),
        Ok(vec![CacheParam::String("Alice".into()), CacheParam::I64(20)])
    );
}

#[test]
fn json_import_row_names_the_missing_column() {
    let r = record(&[("age", CacheParam::I64(25))]);
    let columns = vec!["name".to_string(), "age".to_string()];
    assert_eq!(
        json_import_row(&r, &columns, 1),
        Err("The row 2 does not have the column 'name'.".to_string())
    );
}
