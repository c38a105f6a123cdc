use sqlite3_editor::xlsx_sheet::{sheet_name, unique_sheet_name, xlsx_integer, xlsx_selection, xlsx_top_left};

fn names(v: &[&str]) -> Vec<String> {
    v.iter().map(|s| s.to_string()).collect()
}

#[test]
fn sheet_name_keeps_a_free_name() {
    assert_eq!(unique_sheet_name("t", &names(&[])), "t");
}

#[test]
fn sheet_name_numbers_a_taken_name() {
    assert_eq!(unique_sheet_name("t", &names(&["t"])), "t_2");
    assert_eq!(unique_sheet_name("t", &names(&["t", "t_2"])), "t_3");
}

#[test]
fn sheet_name_is_at_most_31_characters() {
    let long = "a".repeat(40);
    assert_eq!(unique_sheet_name(&long, &names(&[])), "a".repeat(31));
    let taken = vec!["a".repeat(31)];
    let second = unique_sheet_name(&long, &taken);
    assert_eq!(second, format!("{}_2", "a".repeat(29)));
    assert_eq!(second.chars().count(), 31);
}

#[test]
fn sheet_name_of_an_empty_name_is_two_quotes() {
    assert_eq!(unique_sheet_name("", &names(&[])), "\"\"");
}

#[test]
fn sheet_name_drops_invalid_characters() {
    assert_eq!(sheet_name("a/b*c'", &names(&[])), Some("abc".to_string()));
    assert_eq!(sheet_name("'x'", &names(&[])), Some("x".to_string()));
    assert_eq!(sheet_name("[q]?:\\", &names(&[])), Some("q".to_string()));
}

#[test]
fn sheet_names_of_many_equal_tables_are_distinct() {
    let mut taken: Vec<String> = vec![];
    for _ in 0..12 {
        let n = unique_sheet_name("table", &taken);
        assert!(!taken.contains(&n));
        assert!(n.chars().count() <= 31);
        taken.push(n);
    }
    assert_eq!(taken[11], "table_12");
}

#[test]
fn xlsx_cells_are_below_the_header() {
    assert_eq!(xlsx_selection((0, 1, 2, 3)), (1, 1, 3, 3));
    assert_eq!(xlsx_top_left((0, 5)), (0, 5));
    assert_eq!(xlsx_top_left((3, 5)), (4, 5));
}

#[test]
fn xlsx_integers_in_the_range_of_i32() {
    assert_eq!(xlsx_integer(5), Some(5));
    assert_eq!(xlsx_integer(-2147483648), Some(i32::MIN));
    assert_eq!(xlsx_integer(2147483648), None);
    assert_eq!(xlsx_integer(i64::MIN), None);
}
