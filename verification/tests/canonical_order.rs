use canonical_cbor::{compare, equals, try_compare, Value};
use std::cmp::Ordering;

fn text(s: &str) -> Value {
    Value::Text(String::from(s))
}

fn nested() -> Value {
    Value::Array(vec![
        Value::Null,
        Value::Bool(true),
        Value::UnsignedInteger(7),
        Value::Bytes(vec![1, 2, 3]),
        text("nested"),
        Value::Array(vec![Value::SignedInteger(-4), Value::Float((1.5f64).to_bits())]),
        Value::Mapping(vec![(text("k"), Value::UnsignedInteger(1))]),
    ])
}

#[test]
fn totality_exactly_one_direction() {
    let values = || {
        vec![
            Value::UnsignedInteger(7),
            Value::SignedInteger(-1),
            Value::Bytes(vec![9]),
            text("zz"),
            Value::Array(vec![Value::Null]),
            Value::Mapping(vec![(text("a"), Value::Null)]),
            Value::Null,
            Value::Bool(false),
            Value::Float((0.5f64).to_bits()),
        ]
    };
    let xs = values();
    let ys = values();
    for (i, a) in xs.iter().enumerate() {
        for (j, b) in ys.iter().enumerate() {
            let fwd = compare(a, b);
            let back = compare(b, a);
            match fwd {
                Ordering::Less => assert_eq!(back, Ordering::Greater),
                Ordering::Equal => {
                    assert_eq!(back, Ordering::Equal);
                    assert_eq!(i, j);
                }
                Ordering::Greater => assert_eq!(back, Ordering::Less),
            }
        }
    }
}

#[test]
fn transitivity_scenarios() {
    let a = Value::UnsignedInteger(1);
    let b = Value::SignedInteger(-2);
    let c = Value::Bytes(vec![0]);
    assert_eq!(compare(&a, &b), Ordering::Less);
    assert_eq!(compare(&b, &c), Ordering::Less);
    assert_eq!(compare(&a, &c), Ordering::Less);

    let x = text("aa");
    let y = text("ab");
    let z = text("b");
    assert_eq!(compare(&z, &x), Ordering::Less);
    assert_eq!(compare(&x, &y), Ordering::Less);
    assert_eq!(compare(&z, &y), Ordering::Less);
}

#[test]
fn equality_reflexivity_including_nested() {
    let simple = vec![
        Value::Null,
        Value::Bool(true),
        Value::UnsignedInteger(0),
        Value::SignedInteger(i64::MIN),
        Value::LargeSignedInteger(-18446744073709551616),
        Value::Float(f64::NAN.to_bits()),
        Value::Bytes(vec![]),
        text(""),
    ];
    for v in &simple {
        assert_eq!(compare(v, v), Ordering::Equal);
    }
    let n = nested();
    assert_eq!(compare(&n, &n), Ordering::Equal);
    assert_eq!(compare(&nested(), &nested()), Ordering::Equal);
}

#[test]
fn cross_kind_numeric_equivalence() {
    let u = Value::UnsignedInteger(5);
    let s = Value::SignedInteger(5);
    let l = Value::LargeSignedInteger(5);
    assert_eq!(compare(&u, &s), Ordering::Equal);
    assert_eq!(compare(&s, &l), Ordering::Equal);
    assert_eq!(compare(&u, &l), Ordering::Equal);
    assert!(equals(&u, &s));
    assert!(equals(&s, &u));

    let sn = Value::SignedInteger(-9);
    let ln = Value::LargeSignedInteger(-9);
    assert_eq!(compare(&sn, &ln), Ordering::Equal);
}

#[test]
fn magnitude_based_negative_ordering() {
    assert_eq!(
        compare(&Value::SignedInteger(-3), &Value::SignedInteger(-5)),
        Ordering::Less
    );
    assert_eq!(
        compare(&Value::SignedInteger(-5), &Value::SignedInteger(-3)),
        Ordering::Greater
    );
}

#[test]
fn rank_ordering_chain() {
    let chain = vec![
        Value::UnsignedInteger(u64::MAX),
        Value::SignedInteger(-1),
        Value::Bytes(vec![0xff, 0xff, 0xff]),
        text("zz"),
        Value::Array(vec![Value::Null, Value::Null]),
        Value::Mapping(vec![(text("z"), Value::Null)]),
        Value::Bool(false),
        Value::Bool(true),
        Value::Null,
        Value::Float((-1.0f64).to_bits()),
    ];
    for pair in chain.windows(2) {
        assert_eq!(compare(&pair[0], &pair[1]), Ordering::Less);
    }
}

#[test]
fn rank_ignores_magnitude() {
    assert_eq!(
        compare(&Value::UnsignedInteger(1000000), &Value::SignedInteger(-1)),
        Ordering::Less
    );
    assert_eq!(
        compare(&Value::LargeSignedInteger(-18446744073709551616), &Value::Bytes(vec![])),
        Ordering::Less
    );
}

#[test]
fn length_first_ordering() {
    assert_eq!(
        compare(&Value::Bytes(vec![1, 2]), &Value::Bytes(vec![0, 0, 0])),
        Ordering::Less
    );
    assert_eq!(compare(&text("zz"), &text("aaa")), Ordering::Less);
    assert_eq!(
        compare(
            &Value::Array(vec![Value::UnsignedInteger(900)]),
            &Value::Array(vec![Value::Null, Value::Null])
        ),
        Ordering::Less
    );
    assert_eq!(
        compare(
            &Value::Mapping(vec![(text("z"), Value::Null)]),
            &Value::Mapping(vec![
                (text("a"), Value::Null),
                (text("b"), Value::Null),
            ])
        ),
        Ordering::Less
    );
}

#[test]
fn equal_length_content_ordering() {
    assert_eq!(
        compare(&Value::Bytes(vec![1, 2]), &Value::Bytes(vec![1, 3])),
        Ordering::Less
    );
    assert_eq!(compare(&text("ab"), &text("ac")), Ordering::Less);
    assert_eq!(
        compare(
            &Value::Array(vec![Value::UnsignedInteger(1), Value::UnsignedInteger(2)]),
            &Value::Array(vec![Value::UnsignedInteger(1), Value::UnsignedInteger(3)])
        ),
        Ordering::Less
    );
    assert_eq!(
        compare(
            &Value::Mapping(vec![(text("a"), Value::UnsignedInteger(1))]),
            &Value::Mapping(vec![(text("a"), Value::UnsignedInteger(2))])
        ),
        Ordering::Less
    );
}

#[test]
fn overflow_safety_extreme_magnitudes() {
    let min64 = Value::SignedInteger(i64::MIN);
    assert_eq!(compare(&min64, &Value::UnsignedInteger(0)), Ordering::Greater);
    assert_eq!(compare(&min64, &Value::SignedInteger(-1)), Ordering::Greater);
    assert_eq!(compare(&min64, &Value::SignedInteger(i64::MIN)), Ordering::Equal);
    let min_large = Value::LargeSignedInteger(-18446744073709551616);
    assert_eq!(compare(&min64, &min_large), Ordering::Less);
    assert_eq!(
        compare(&min_large, &Value::LargeSignedInteger(-18446744073709551615)),
        Ordering::Greater
    );
    assert_eq!(
        compare(&Value::UnsignedInteger(u64::MAX), &min64),
        Ordering::Less
    );
}

#[test]
fn float_ordering_follows_encoded_bits() {
    let one = Value::Float((1.0f64).to_bits());
    let two = Value::Float((2.0f64).to_bits());
    assert_eq!(compare(&one, &two), Ordering::Less);

    let pos_zero = Value::Float((0.0f64).to_bits());
    let neg_zero = Value::Float((-0.0f64).to_bits());
    assert_ne!(compare(&pos_zero, &neg_zero), Ordering::Equal);
    assert_eq!(compare(&pos_zero, &neg_zero), Ordering::Less);

    let nan_a = Value::Float(0x7ff8000000000000);
    let nan_b = Value::Float(0x7ff8000000000001);
    assert_ne!(compare(&nan_a, &nan_b), Ordering::Equal);
}

#[test]
fn round_trip_lifted_primitives() {
    let lifted = Value::from(200u8);
    assert_eq!(compare(&lifted, &Value::UnsignedInteger(200)), Ordering::Equal);
    assert_eq!(
        compare(&Value::from(-7i16), &Value::SignedInteger(-7)),
        Ordering::Equal
    );
    assert_eq!(
        compare(&Value::from(40000u16), &Value::UnsignedInteger(40000)),
        Ordering::Equal
    );
    assert_eq!(
        compare(&Value::from(7i8), &Value::UnsignedInteger(7)),
        Ordering::Equal
    );
    assert!(matches!(Value::from(true), Value::Bool(true)));
    assert!(matches!(Value::from(vec![1u8, 2u8]), Value::Bytes(_)));
    assert!(matches!(Value::from(String::from("hi")), Value::Text(_)));
    assert!(matches!(
        Value::from(vec![Value::Null]),
        Value::Array(_)
    ));
}

#[test]
fn try_compare_rejects_unserializable_operands() {
    assert_eq!(
        try_compare(&Value::UnsignedInteger(1), &Value::SignedInteger(-1)),
        Some(Ordering::Less)
    );
    assert!(try_compare(&Value::__Hidden, &Value::Null).is_none());
    assert!(try_compare(&Value::Null, &Value::LargeSignedInteger(i128::MIN)).is_none());
    assert!(try_compare(
        &Value::Array(vec![Value::__Hidden]),
        &Value::Array(vec![Value::Null])
    )
    .is_none());
}

#[test]
fn lifting_sorted_entries_keeps_them() {
    let m = Value::from(vec![
        (Value::Text(String::from("a")), Value::UnsignedInteger(1)),
        (Value::Text(String::from("b")), Value::UnsignedInteger(2)),
    ]);
    match &m {
        Value::Mapping(entries) => assert_eq!(entries.len(), 2),
        _ => panic!("expected a map value"),
    }
}

#[test]
fn equals_is_canonical_not_structural() {
    assert!(equals(&Value::UnsignedInteger(5), &Value::SignedInteger(5)));
    assert!(!equals(&Value::UnsignedInteger(5), &Value::UnsignedInteger(6)));
    assert!(!equals(&Value::Null, &Value::Bool(false)));
}
