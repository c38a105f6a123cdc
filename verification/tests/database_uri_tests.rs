use sqlite3_editor::database_uri::immutable_uri;

#[test]
fn immutable_uri_keeps_slashes_letters_and_digits() {
    assert_eq!(immutable_uri("/home/user/db1"), "file:/home/user/db1?immutable=1");
}

#[test]
fn immutable_uri_encodes_other_bytes_in_upper_case_hex() {
    assert_eq!(
        immutable_uri("/tmp/a b/\u{fc}.db"),
        "file:/tmp/a%20b/%C3%BC%2Edb?immutable=1"
    );
}

#[test]
fn immutable_uri_of_empty_path() {
    assert_eq!(immutable_uri(""), "file:?immutable=1");
}

#[test]
fn immutable_uri_encodes_query_characters() {
    assert_eq!(immutable_uri("a?b#c%"), "file:a%3Fb%23c%25?immutable=1");
}
