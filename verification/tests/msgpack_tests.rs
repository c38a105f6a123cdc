use std::collections::BTreeMap;
use std::rc::Rc;

use sqlite3_editor::msgpack::{map_of_encoded, push_array_header, push_map_header, push_str, records_msgpack};
use sqlite3_editor::records::Records;

#[test]
fn headers_are_those_of_rmp_serde() {
    for n in [0usize, 15, 16, 65535, 65536] {
        let mut out = vec![];
        push_array_header(&mut out, n as u32);
        let expected = rmp_serde::to_vec(&vec![(); n]).unwrap();
        assert_eq!(out[..], expected[..out.len()]);
        let mut out = vec![];
        push_map_header(&mut out, n as u32);
        let m: BTreeMap<u32, ()> = (0..n as u32).map(|i| (i, ())).collect();
        let expected = rmp_serde::to_vec(&m).unwrap();
        assert_eq!(out[..], expected[..out.len()]);
    }
}

#[test]
fn strings_are_those_of_rmp_serde() {
    for s in ["", "abc", &"x".repeat(31), &"y".repeat(32), &"é".repeat(200), &"z".repeat(70000)] {
        let mut out = vec![];
        assert!(push_str(&mut out, s));
        assert_eq!(out, rmp_serde::to_vec(s).unwrap());
    }
}

#[test]
fn maps_of_encoded_values() {
    let entries = vec![("a".to_owned(), rmp_serde::to_vec(&1i64).unwrap()), ("b".to_owned(), rmp_serde::to_vec("x").unwrap())];
    let out = map_of_encoded(&entries).unwrap();
    assert_eq!(out, vec![0x82, 0xa1, b'a', 0x01, 0xa1, b'b', 0xa1, b'x']);
}

#[test]
fn records_become_a_map_of_column_arrays() {
    let x: Vec<u8> = [rmp_serde::to_vec(&0i64).unwrap(), rmp_serde::to_vec(&2i64).unwrap()].concat();
    let y: Vec<u8> = [rmp_serde::to_vec(&1i64).unwrap(), rmp_serde::to_vec(&3i64).unwrap()].concat();
    let records = Records::new(vec![x, y], 2, Rc::new(vec!["x".to_owned(), "y".to_owned()]));
    let out = records_msgpack(&records).unwrap();
    let mut m = BTreeMap::new();
    m.insert("x".to_owned(), vec![0i64, 2]);
    m.insert("y".to_owned(), vec![1i64, 3]);
    assert_eq!(out, rmp_serde::to_vec(&m).unwrap());
    let bad = Records::new(vec![], 1, Rc::new(vec!["x".to_owned()]));
    assert!(records_msgpack(&bad).is_none());
}
