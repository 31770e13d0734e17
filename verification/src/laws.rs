//! The canonical order is a total order.
//!
//! These proof functions state the ordering laws the sorted-map invariant
//! depends on: every pair of values compares one way, comparison is
//! reflexive, antisymmetric and transitive, equal values are
//! interchangeable, and the shortcut rules (rank first, magnitude for
//! integers, length first for containers) hold of all values.

use vstd::prelude::*;

verus! {

use core::cmp::Ordering;
use vstd::utf8::encode_utf8;
use crate::compare::canonical_cmp;
use crate::lex::{lemma_lex_cmp_equal, lemma_lex_cmp_flip, lemma_lex_cmp_trans};

use crate::value::{canon, int_val, is_integer, major_of, Value};

/// Every value compares `Equal` to itself, however deeply nested.
pub proof fn lemma_compare_reflexive(a: Value)
    ensures
        canonical_cmp(a, a) == Ordering::Equal,
{
    lemma_lex_cmp_equal(canon(a), canon(a));
}

/// Exactly one direction holds between any two values: `a` sorts below `b`
/// exactly when `b` sorts above `a`, and equality is symmetric.  Together
/// with comparison returning one of the three outcomes, this makes the
/// canonical order total.
pub proof fn lemma_compare_antisymmetric(a: Value, b: Value)
    ensures
        canonical_cmp(a, b) == Ordering::Less <==> canonical_cmp(b, a) == Ordering::Greater,
        canonical_cmp(a, b) == Ordering::Equal <==> canonical_cmp(b, a) == Ordering::Equal,
{
    lemma_lex_cmp_flip(canon(a), canon(b));
}

/// The canonical order is transitive.
pub proof fn lemma_compare_transitive(a: Value, b: Value, c: Value)
    requires
        canonical_cmp(a, b) == Ordering::Less,
        canonical_cmp(b, c) == Ordering::Less,
    ensures
        canonical_cmp(a, c) == Ordering::Less,
{
    lemma_lex_cmp_trans(canon(a), canon(b), canon(c));
}

/// Values that compare `Equal` are indistinguishable to the order: they
/// compare the same way against every third value.
pub proof fn lemma_compare_equal_consistent(a: Value, b: Value, c: Value)
    requires
        canonical_cmp(a, b) == Ordering::Equal,
    ensures
        canonical_cmp(a, c) == canonical_cmp(b, c),
        canonical_cmp(c, a) == canonical_cmp(c, b),
{
    lemma_lex_cmp_equal(canon(a), canon(b));
}

/// Integer values holding the same number compare `Equal` whichever of the
/// three integer variants holds them: variant tags never influence the
/// canonical order.
pub proof fn lemma_integer_equivalence(a: Value, b: Value)
    requires
        is_integer(a),
        is_integer(b),
        int_val(a) == int_val(b),
    ensures
        canonical_cmp(a, b) == Ordering::Equal,
{
    crate::value::lemma_canon_integer(a);
    crate::value::lemma_canon_integer(b);
    lemma_lex_cmp_equal(canon(a), canon(b));
}

/// Integers of one sign class order by absolute magnitude: among
/// non-negative values the larger sorts later, and among negative values
/// the one of larger magnitude sorts later.
pub proof fn lemma_integer_magnitude(a: Value, b: Value)
    requires
        is_integer(a),
        is_integer(b),
        major_of(a) == major_of(b),
        crate::value::int_arg(a) < 0x10000000000000000,
        crate::value::int_arg(b) < 0x10000000000000000,
    ensures
        canonical_cmp(a, b) == if crate::value::int_arg(a) < crate::value::int_arg(b) {
            Ordering::Less
        } else if crate::value::int_arg(a) == crate::value::int_arg(b) {
            Ordering::Equal
        } else {
            Ordering::Greater
        },
{
    crate::value::lemma_canon_integer(a);
    crate::value::lemma_canon_integer(b);
    crate::encoding::lemma_head_cmp(major_of(a), crate::value::int_arg(a), crate::value::int_arg(b));
}

/// The rank rule: any value of smaller major type sorts before any value
/// of larger major type.  In particular every non-negative integer sorts
/// before every negative integer, which sorts before every byte string,
/// then every text string, then every array, then every map, and null,
/// booleans and floats come last.
pub proof fn lemma_rank_order(a: Value, b: Value)
    requires
        major_of(a) < major_of(b),
        major_of(b) < 8,
    ensures
        canonical_cmp(a, b) == Ordering::Less,
{
    crate::value::lemma_canon_first(a);
    crate::value::lemma_canon_first(b);
    crate::lex::lemma_lex_cmp_first_lt(canon(a), canon(b));
}

/// Lifting a native unsigned 8-bit value into the value model and
/// comparing it against the equal `UnsignedInteger` yields `Equal`: the
/// lifting conversion is exactly the widening into that variant.
pub proof fn lemma_lift_round_trip(x: u8)
    ensures
        canonical_cmp(
            <Value as vstd::std_specs::convert::FromSpec<u8>>::from_spec(x),
            Value::UnsignedInteger(x as u64),
        ) == Ordering::Equal,
{
    lemma_compare_reflexive(Value::UnsignedInteger(x as u64));
}

/// The byte length of a container value: bytes in a byte string, UTF-8
/// bytes in a text string, elements in an array, entries in a map.
pub open spec fn content_len(v: Value) -> nat {
    match v {
        Value::Bytes(b) => b@.len(),
        Value::Text(s) => encode_utf8(s@).len(),
        Value::Array(a) => a@.len(),
        Value::Mapping(m) => m@.len(),
        _ => 0,
    }
}

/// The length-first rule: between two byte strings, two text strings, two
/// arrays or two maps, the one with fewer content bytes, elements or
/// entries sorts first, whatever the contents are.  The bound on the
/// larger length is the format's own limit on a head argument.
pub proof fn lemma_shorter_first(a: Value, b: Value)
    requires
        (a is Bytes && b is Bytes) || (a is Text && b is Text) || (a is Array && b is Array) || (
        a is Mapping && b is Mapping),
        content_len(a) < content_len(b),
        content_len(b) < 0x10000000000000000,
    ensures
        canonical_cmp(a, b) == Ordering::Less,
{
    crate::encoding::lemma_head_mono(major_of(a), content_len(a), content_len(b));
    if a is Bytes {
        crate::lex::lemma_lex_cmp_strict_concat(
            crate::encoding::head(2, content_len(a)),
            crate::encoding::head(2, content_len(b)),
            a->Bytes_0@,
            b->Bytes_0@,
        );
    } else if a is Text {
        crate::lex::lemma_lex_cmp_strict_concat(
            crate::encoding::head(3, content_len(a)),
            crate::encoding::head(3, content_len(b)),
            encode_utf8(a->Text_0@),
            encode_utf8(b->Text_0@),
        );
    } else if a is Array {
        crate::lex::lemma_lex_cmp_strict_concat(
            crate::encoding::head(4, content_len(a)),
            crate::encoding::head(4, content_len(b)),
            crate::value::canon_seq(a->Array_0@),
            crate::value::canon_seq(b->Array_0@),
        );
    } else {
        crate::lex::lemma_lex_cmp_strict_concat(
            crate::encoding::head(5, content_len(a)),
            crate::encoding::head(5, content_len(b)),
            crate::value::canon_entries(a->Mapping_0@),
            crate::value::canon_entries(b->Mapping_0@),
        );
    }
}

} // verus!
