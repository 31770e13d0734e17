use canonical_cbor::{compare, map_from_entries, map_get, map_insert, map_remove, serialize, Value};
use std::cmp::Ordering;

fn text(s: &str) -> Value {
    Value::Text(String::from(s))
}

#[test]
fn map_canonical_insertion() {
    let mut entries: Vec<(Value, Value)> = Vec::new();
    map_insert(&mut entries, text("b"), Value::UnsignedInteger(1));
    map_insert(&mut entries, text("a"), Value::UnsignedInteger(2));
    assert_eq!(entries.len(), 2);
    assert!(matches!(&entries[0].0, Value::Text(s) if s == "a"));
    assert!(matches!(&entries[1].0, Value::Text(s) if s == "b"));
    assert!(matches!(entries[0].1, Value::UnsignedInteger(2)));
    assert!(matches!(entries[1].1, Value::UnsignedInteger(1)));
}

#[test]
fn map_from_entries_sorts_canonically() {
    let m = map_from_entries(vec![
        (text("b"), Value::UnsignedInteger(1)),
        (text("a"), Value::UnsignedInteger(2)),
    ]);
    match &m {
        Value::Mapping(entries) => {
            assert!(matches!(&entries[0].0, Value::Text(s) if s == "a"));
            assert!(matches!(&entries[1].0, Value::Text(s) if s == "b"));
        }
        _ => panic!("expected a map value"),
    }
    assert_eq!(
        serialize(&m).unwrap(),
        vec![0xa2, 0x61, 0x61, 0x02, 0x61, 0x62, 0x01]
    );
}

#[test]
fn later_insertion_at_equal_key_overwrites() {
    let mut entries: Vec<(Value, Value)> = Vec::new();
    map_insert(&mut entries, text("k"), Value::UnsignedInteger(1));
    map_insert(&mut entries, text("k"), Value::UnsignedInteger(2));
    assert_eq!(entries.len(), 1);
    assert!(matches!(entries[0].1, Value::UnsignedInteger(2)));

    let mut cross: Vec<(Value, Value)> = Vec::new();
    map_insert(&mut cross, Value::UnsignedInteger(5), Value::Bool(false));
    map_insert(&mut cross, Value::SignedInteger(5), Value::Bool(true));
    assert_eq!(cross.len(), 1);
    assert!(matches!(cross[0].1, Value::Bool(true)));
}

#[test]
fn non_string_keys_follow_rank_and_magnitude() {
    let mut entries: Vec<(Value, Value)> = Vec::new();
    map_insert(&mut entries, text("t"), Value::UnsignedInteger(0));
    map_insert(&mut entries, Value::SignedInteger(-1), Value::UnsignedInteger(1));
    map_insert(&mut entries, Value::UnsignedInteger(10), Value::UnsignedInteger(2));
    map_insert(&mut entries, Value::Bytes(vec![0]), Value::UnsignedInteger(3));
    map_insert(&mut entries, Value::UnsignedInteger(2), Value::UnsignedInteger(4));
    assert!(matches!(entries[0].0, Value::UnsignedInteger(2)));
    assert!(matches!(entries[1].0, Value::UnsignedInteger(10)));
    assert!(matches!(entries[2].0, Value::SignedInteger(-1)));
    assert!(matches!(entries[3].0, Value::Bytes(_)));
    assert!(matches!(entries[4].0, Value::Text(_)));
    for pair in entries.windows(2) {
        assert_eq!(compare(&pair[0].0, &pair[1].0), Ordering::Less);
    }
}

#[test]
fn map_get_finds_equal_keys() {
    let mut entries: Vec<(Value, Value)> = Vec::new();
    map_insert(&mut entries, text("a"), Value::UnsignedInteger(1));
    map_insert(&mut entries, Value::UnsignedInteger(5), Value::UnsignedInteger(2));
    assert!(matches!(
        map_get(&entries, &text("a")),
        Some(Value::UnsignedInteger(1))
    ));
    assert!(matches!(
        map_get(&entries, &Value::SignedInteger(5)),
        Some(Value::UnsignedInteger(2))
    ));
    assert!(map_get(&entries, &text("missing")).is_none());
}

#[test]
fn map_remove_takes_out_equal_keys() {
    let mut entries: Vec<(Value, Value)> = Vec::new();
    map_insert(&mut entries, text("a"), Value::UnsignedInteger(1));
    map_insert(&mut entries, text("b"), Value::UnsignedInteger(2));
    let gone = map_remove(&mut entries, &text("a"));
    assert!(matches!(gone, Some(Value::UnsignedInteger(1))));
    assert_eq!(entries.len(), 1);
    assert!(matches!(&entries[0].0, Value::Text(s) if s == "b"));
    assert!(map_remove(&mut entries, &text("a")).is_none());
    assert_eq!(entries.len(), 1);

    let mut cross: Vec<(Value, Value)> = Vec::new();
    map_insert(&mut cross, Value::UnsignedInteger(5), Value::Bool(true));
    let taken = map_remove(&mut cross, &Value::SignedInteger(5));
    assert!(matches!(taken, Some(Value::Bool(true))));
    assert!(cross.is_empty());
}

#[test]
fn insertion_order_never_shows_in_serialization() {
    let forward = map_from_entries(vec![
        (Value::UnsignedInteger(1), text("x")),
        (Value::UnsignedInteger(2), text("y")),
    ]);
    let backward = map_from_entries(vec![
        (Value::UnsignedInteger(2), text("y")),
        (Value::UnsignedInteger(1), text("x")),
    ]);
    assert_eq!(serialize(&forward).unwrap(), serialize(&backward).unwrap());
    assert_eq!(compare(&forward, &backward), Ordering::Equal);
}
