use canonical_cbor::{is_serializable, serialize, Value};

fn text(s: &str) -> Value {
    Value::Text(String::from(s))
}

#[test]
fn unsigned_integer_heads() {
    assert_eq!(serialize(&Value::UnsignedInteger(0)).unwrap(), vec![0x00]);
    assert_eq!(serialize(&Value::UnsignedInteger(23)).unwrap(), vec![0x17]);
    assert_eq!(serialize(&Value::UnsignedInteger(24)).unwrap(), vec![0x18, 24]);
    assert_eq!(serialize(&Value::UnsignedInteger(255)).unwrap(), vec![0x18, 0xff]);
    assert_eq!(serialize(&Value::UnsignedInteger(256)).unwrap(), vec![0x19, 0x01, 0x00]);
    assert_eq!(serialize(&Value::UnsignedInteger(500)).unwrap(), vec![0x19, 0x01, 0xf4]);
    assert_eq!(
        serialize(&Value::UnsignedInteger(65536)).unwrap(),
        vec![0x1a, 0x00, 0x01, 0x00, 0x00]
    );
    assert_eq!(
        serialize(&Value::UnsignedInteger(4294967296)).unwrap(),
        vec![0x1b, 0x00, 0x00, 0x00, 0x01, 0x00, 0x00, 0x00, 0x00]
    );
    assert_eq!(
        serialize(&Value::UnsignedInteger(u64::MAX)).unwrap(),
        vec![0x1b, 0xff, 0xff, 0xff, 0xff, 0xff, 0xff, 0xff, 0xff]
    );
}

#[test]
fn negative_integer_heads() {
    assert_eq!(serialize(&Value::SignedInteger(-1)).unwrap(), vec![0x20]);
    assert_eq!(serialize(&Value::SignedInteger(-24)).unwrap(), vec![0x37]);
    assert_eq!(serialize(&Value::SignedInteger(-25)).unwrap(), vec![0x38, 24]);
    assert_eq!(serialize(&Value::SignedInteger(-500)).unwrap(), vec![0x39, 0x01, 0xf3]);
    assert_eq!(
        serialize(&Value::SignedInteger(i64::MIN)).unwrap(),
        vec![0x3b, 0x7f, 0xff, 0xff, 0xff, 0xff, 0xff, 0xff, 0xff]
    );
    assert_eq!(
        serialize(&Value::LargeSignedInteger(-18446744073709551616)).unwrap(),
        vec![0x3b, 0xff, 0xff, 0xff, 0xff, 0xff, 0xff, 0xff, 0xff]
    );
}

#[test]
fn signed_non_negative_uses_unsigned_form() {
    assert_eq!(serialize(&Value::SignedInteger(10)).unwrap(), vec![0x0a]);
    assert_eq!(serialize(&Value::LargeSignedInteger(10)).unwrap(), vec![0x0a]);
    assert_eq!(
        serialize(&Value::LargeSignedInteger(18446744073709551615)).unwrap(),
        vec![0x1b, 0xff, 0xff, 0xff, 0xff, 0xff, 0xff, 0xff, 0xff]
    );
}

#[test]
fn simple_values_and_floats() {
    assert_eq!(serialize(&Value::Null).unwrap(), vec![0xf6]);
    assert_eq!(serialize(&Value::Bool(false)).unwrap(), vec![0xf4]);
    assert_eq!(serialize(&Value::Bool(true)).unwrap(), vec![0xf5]);
    assert_eq!(
        serialize(&Value::Float((1.0f64).to_bits())).unwrap(),
        vec![0xfb, 0x3f, 0xf0, 0x00, 0x00, 0x00, 0x00, 0x00, 0x00]
    );
    assert_eq!(
        serialize(&Value::Float((-0.0f64).to_bits())).unwrap(),
        vec![0xfb, 0x80, 0x00, 0x00, 0x00, 0x00, 0x00, 0x00, 0x00]
    );
}

#[test]
fn strings_arrays_and_maps() {
    assert_eq!(serialize(&Value::Bytes(vec![])).unwrap(), vec![0x40]);
    assert_eq!(serialize(&Value::Bytes(vec![1, 2])).unwrap(), vec![0x42, 1, 2]);
    assert_eq!(serialize(&text("")).unwrap(), vec![0x60]);
    assert_eq!(serialize(&text("a")).unwrap(), vec![0x61, 0x61]);
    assert_eq!(serialize(&text("IETF")).unwrap(), vec![0x64, 0x49, 0x45, 0x54, 0x46]);
    assert_eq!(
        serialize(&text("\u{00fc}")).unwrap(),
        vec![0x62, 0xc3, 0xbc]
    );
    assert_eq!(
        serialize(&Value::Array(vec![
            Value::UnsignedInteger(1),
            Value::UnsignedInteger(2)
        ]))
        .unwrap(),
        vec![0x82, 0x01, 0x02]
    );
    assert_eq!(
        serialize(&Value::Mapping(vec![(text("a"), Value::UnsignedInteger(1))])).unwrap(),
        vec![0xa1, 0x61, 0x61, 0x01]
    );
}

#[test]
fn out_of_range_large_integers_fail() {
    assert!(serialize(&Value::LargeSignedInteger(-18446744073709551617)).is_err());
    assert!(serialize(&Value::LargeSignedInteger(18446744073709551616)).is_err());
    assert!(serialize(&Value::LargeSignedInteger(i128::MIN)).is_err());
    assert!(serialize(&Value::LargeSignedInteger(i128::MAX)).is_err());
    assert!(serialize(&Value::LargeSignedInteger(-18446744073709551616)).is_ok());
    assert!(serialize(&Value::LargeSignedInteger(18446744073709551615)).is_ok());
}

#[test]
fn reserved_variant_fails_everywhere_in_the_tree() {
    assert!(serialize(&Value::__Hidden).is_err());
    assert!(serialize(&Value::Array(vec![Value::Null, Value::__Hidden])).is_err());
    assert!(serialize(&Value::Mapping(vec![(text("k"), Value::__Hidden)])).is_err());
    assert!(!is_serializable(&Value::__Hidden));
    assert!(!is_serializable(&Value::Array(vec![Value::Array(vec![
        Value::__Hidden
    ])])));
    assert!(is_serializable(&Value::Array(vec![Value::Null])));
}
