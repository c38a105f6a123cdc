use sqlite3_editor::function_list::{sort_texts, text_less};
use sqlite3_editor::version::version_text;

#[test]
fn test_function_list() {
    let mut stdout = vec![];
    sqlite3_editor::function_list::run(&mut stdout);
    let json = String::from_utf8(stdout).unwrap();
    let json = json.trim();
    assert!(json.starts_with("[\""));
    assert!(json.ends_with("\"]"));
}

#[test]
fn test_version() {
    let mut stdout = vec![];
    sqlite3_editor::version::run(&mut stdout);
    assert!(String::from_utf8(stdout).unwrap().starts_with("sqlite3-editor "));
}

#[test]
fn function_list_is_sorted() {
    let mut stdout = vec![];
    assert!(sqlite3_editor::function_list::run(&mut stdout));
    let json = String::from_utf8(stdout).unwrap();
    let names: Vec<String> = serde_json::from_str(json.trim()).unwrap();
    let mut sorted = names.clone();
    sorted.sort();
    assert_eq!(names, sorted);
    assert!(names.iter().any(|n| n == "abs"));
}

#[test]
fn texts_sort_like_strings() {
    let v: Vec<String> = ["b", "a", "", "ab", "é", "Z", "a"].iter().map(|s| s.to_string()).collect();
    let mut expected = v.clone();
    expected.sort();
    assert_eq!(sort_texts(&v), expected);
    let a: Vec<char> = "ab".chars().collect();
    let b: Vec<char> = "b".chars().collect();
    assert!(text_less(&a, &b));
    assert!(!text_less(&b, &a));
    assert!(!text_less(&a, &a));
}

#[test]
fn version_report_lists_options() {
    let text = version_text("1.2.3", "3.46.0", &vec!["A=1".to_string(), "B".to_string()]);
    assert_eq!(text, "sqlite3-editor 1.2.3\nSQLite 3.46.0\n\nCompile options:\n- A=1\n- B\n");
    let text = version_text("1", "2", &vec![]);
    assert_eq!(text, "sqlite3-editor 1\nSQLite 2\n\nCompile options:\n\n");
}

#[test]
fn version_report_starts_with_the_editor_version() {
    let mut out = vec![];
    assert!(sqlite3_editor::version::run(&mut out));
    let text = String::from_utf8(out).unwrap();
    assert!(text.starts_with(&format!("sqlite3-editor {}\nSQLite ", sqlite3_editor::version::EDITOR_VERSION)));
    assert!(text.contains("\nCompile options:\n- "));
}

#[test]
fn function_list_is_written_sorted_as_a_json_line() {
    let mut out = b"x".to_vec();
    sqlite3_editor::function_list::write_function_list(&vec!["b".to_string(), "a\"".to_string()], &mut out);
    assert_eq!(String::from_utf8(out).unwrap(), "x[\"a\\\"\",\"b\"]\n");
    assert_eq!(
        sqlite3_editor::function_list::function_list_query(),
        "SELECT DISTINCT name FROM pragma_function_list()"
    );
}

#[test]
fn version_is_written_after_what_was_there() {
    let mut out = b">".to_vec();
    sqlite3_editor::version::write_version("3.0", &vec!["X".to_string()], &mut out);
    let expected = format!(">sqlite3-editor {}\nSQLite 3.0\n\nCompile options:\n- X\n", sqlite3_editor::version::EDITOR_VERSION);
    assert_eq!(String::from_utf8(out).unwrap(), expected);
    assert_eq!(sqlite3_editor::version::compile_options_query(), "PRAGMA compile_options");
}

#[test]
fn health_check_reads_back_what_it_wrote() {
    let (create, insert, select) = sqlite3_editor::version::health_check_statements();
    assert_eq!((create, insert, select), ("CREATE TABLE t(v)", "INSERT INTO t VALUES (?)", "SELECT v FROM t"));
    assert_eq!(sqlite3_editor::version::health_check_value(), "ok");
    assert!(sqlite3_editor::version::reads_back_ok(&Some(vec!["ok".to_string(), "x".to_string()])));
    assert!(!sqlite3_editor::version::reads_back_ok(&Some(vec!["no".to_string()])));
    assert!(!sqlite3_editor::version::reads_back_ok(&Some(vec![])));
    assert!(!sqlite3_editor::version::reads_back_ok(&None));
}
