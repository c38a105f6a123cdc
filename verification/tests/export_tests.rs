use sqlite3_editor::export::{csv_delimiter, csv_field, csv_header, csv_row, json_row, json_value, ExportCell};
use sqlite3_editor::json::json_string_array;

#[test]
fn csv_field_writes_null_as_the_chosen_text() {
    assert_eq!(csv_field(&ExportCell::Null, ""), b"".to_vec());
    assert_eq!(csv_field(&ExportCell::Null, "NULL"), b"NULL".to_vec());
}

#[test]
fn csv_field_writes_numbers_in_decimal() {
    assert_eq!(csv_field(&ExportCell::Integer(20), ""), b"20".to_vec());
    assert_eq!(csv_field(&ExportCell::Integer(-7), ""), b"-7".to_vec());
    assert_eq!(
        csv_field(&ExportCell::Integer(i64::MIN), ""),
        b"-9223372036854775808".to_vec()
    );
    let real = ExportCell::Real { text: format!("{}", 1.2f64), json: serde_json::to_string(&1.2f64).unwrap() };
    assert_eq!(csv_field(&real, ""), b"1.2".to_vec());
}

#[test]
fn csv_field_writes_text_bytes_and_blob_base64() {
    assert_eq!(csv_field(&ExportCell::Text(b"Alice".to_vec()), ""), b"Alice".to_vec());
    assert_eq!(csv_field(&ExportCell::Blob(vec![1, 2, 3]), ""), b"AQID".to_vec());
    assert_eq!(csv_field(&ExportCell::Blob(vec![4, 5, 6]), ""), b"BAUG".to_vec());
    assert_eq!(csv_field(&ExportCell::Blob(vec![1, 2]), ""), b"AQI=".to_vec());
    assert_eq!(csv_field(&ExportCell::Blob(vec![0xff]), ""), b"/w==".to_vec());
    assert_eq!(csv_field(&ExportCell::Blob(vec![]), ""), b"".to_vec());
    assert_eq!(csv_field(&ExportCell::Blob(vec![0xfb, 0xff, 0xbf]), ""), b"+/+/".to_vec());
}

#[test]
fn json_value_of_each_kind() {
    assert_eq!(json_value(&ExportCell::Null), "null");
    assert_eq!(json_value(&ExportCell::Integer(25)), "25");
    assert_eq!(json_value(&ExportCell::Integer(-3)), "-3");
    let real = ExportCell::Real { text: format!("{}", 2.4f64), json: serde_json::to_string(&2.4f64).unwrap() };
    assert_eq!(json_value(&real), "2.4");
    assert_eq!(json_value(&ExportCell::Text(b"Alice".to_vec())), "\"Alice\"");
    assert_eq!(json_value(&ExportCell::Text(b"a\"b".to_vec())), "\"a\\\"b\"");
    assert_eq!(json_value(&ExportCell::Blob(vec![1, 2, 3])), "\"AQID\"");
}

#[test]
fn json_value_replaces_invalid_utf8() {
    assert_eq!(json_value(&ExportCell::Text(vec![0x61, 0xff])), "\"a\u{fffd}\"");
}

#[test]
fn json_row_joins_members() {
    let columns = vec!["t".to_string(), "i".to_string(), "n".to_string(), "r".to_string(), "b".to_string()];
    let values = vec![
        json_value(&ExportCell::Text(b"Alice".to_vec())),
        json_value(&ExportCell::Integer(20)),
        json_value(&ExportCell::Null),
        "1.2".to_string(),
        json_value(&ExportCell::Blob(vec![1, 2, 3])),
    ];
    assert_eq!(json_row(&columns, &values), r#"{"t":"Alice","i":20,"n":null,"r":1.2,"b":"AQID"}"#);
    assert_eq!(json_row(&vec![], &vec![]), "{}");
}

#[test]
fn csv_delimiter_must_be_one_byte() {
    assert_eq!(csv_delimiter(","), Ok(b','));
    assert_eq!(csv_delimiter("\t"), Ok(b'\t'));
    for bad in [",,", "", "\u{e9}"] {
        assert_eq!(
            csv_delimiter(bad),
            Err("The delimiter needs to be a single-byte character.".to_string())
        );
    }
}

#[test]
fn json_string_array_is_compact() {
    assert_eq!(json_string_array(&vec![]), "[]");
    assert_eq!(
        json_string_array(&vec!["abs".to_string(), "a\"b".to_string()]),
        "[\"abs\",\"a\\\"b\"]"
    );
}

#[test]
fn csv_lines_are_written_by_the_csv_crate() {
    let header = csv_header(&vec!["t".to_owned(), "i".to_owned(), "n".to_owned(), "r".to_owned(), "b".to_owned()], b',');
    assert_eq!(header, b"t,i,n,r,b\n".to_vec());
    let cells = vec![
        ExportCell::Text(b"Alice".to_vec()),
        ExportCell::Integer(20),
        ExportCell::Null,
        ExportCell::Real { text: "1.2".to_owned(), json: "1.2".to_owned() },
        ExportCell::Blob(vec![1, 2, 3]),
    ];
    assert_eq!(csv_row(&cells, "", b','), b"Alice,20,,1.2,AQID\n".to_vec());
    assert_eq!(csv_row(&cells, "NULL", b'\t'), b"Alice\t20\tNULL\t1.2\tAQID\n".to_vec());
    let quoted = vec![ExportCell::Text(b"a,b".to_vec()), ExportCell::Text(b"say \"hi\"".to_vec())];
    assert_eq!(csv_row(&quoted, "", b','), b"\"a,b\",\"say \"\"hi\"\"\"\n".to_vec());
}

#[test]
fn json_strings_escape_as_serde_json_does() {
    let s = "a\"\\\u{1}\u{8}\t\n\u{c}\r\u{1f} é\u{7f}".to_owned();
    assert_eq!(json_string_array(&vec![s.clone()]), format!("[{}]", serde_json::to_string(&s).unwrap()));
    assert_eq!(json_string_array(&vec![s]), "[\"a\\\"\\\\\\u0001\\b\\t\\n\\f\\r\\u001f é\u{7f}\"]");
}
