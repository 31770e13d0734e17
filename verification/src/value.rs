//! The `Value` enum and its canonical byte encoding.
//!
//! `Value` is a loosely typed tree covering every CBOR major type.  Maps are
//! kept as entry lists sorted by the canonical comparator, so a value tree
//! serializes to one unambiguous canonical form.  The spec function [`canon`]
//! gives that form, and the canonical order on values is defined as the
//! lexicographic order of these encodings.

use vstd::prelude::*;

verus! {

use vstd::utf8::encode_utf8;
use crate::encoding::{be_bytes, head};

/// A loosely typed representation of any CBOR value.
///
/// Maps are sorted according to the canonical ordering, so values are
/// unambiguously serialized to a canonical form.
#[derive(Debug)]
pub enum Value {
    /// Represents the absence of a value or the value undefined.
    Null,
    /// Represents a boolean value.
    Bool(bool),
    /// Integer CBOR non-negative numbers.
    UnsignedInteger(u64),
    /// Integer CBOR possibly-negative numbers within the 64-bit signed range.
    ///
    /// The sign is advisory: canonical rank and magnitude come from the
    /// numeric value, so a non-negative `SignedInteger` behaves exactly like
    /// the equal `UnsignedInteger`.
    SignedInteger(i64),
    /// Integer CBOR possibly-negative numbers beyond the 64-bit signed range.
    ///
    /// Values below -2^64 or above 2^64 - 1 can be constructed but cannot be
    /// serialized and cause an error at the serialization boundary.
    LargeSignedInteger(i128),
    /// Represents a floating point value by its IEEE-754 double-precision
    /// bit pattern.
    ///
    /// Equality and ordering follow the canonical encoding of the bits, not
    /// native floating-point comparison: two NaNs with different payloads
    /// differ, and -0.0 differs from +0.0.
    Float(u64),
    /// Represents a byte string.
    Bytes(Vec<u8>),
    /// Represents an UTF-8 encoded string.
    Text(String),
    /// Represents an array of values.
    Array(Vec<Value>),
    /// Represents a map.
    ///
    /// The entries are kept sorted by key in canonical order with no
    /// duplicate keys; insertion through [`crate::map_insert`] maintains
    /// this, and a later insertion at an equal key overwrites.
    Mapping(Vec<(Value, Value)>),
    /// The hidden variant allows the enum to be extended with variants for
    /// tags and simple values.  It must never be constructed: it cannot be
    /// serialized, and it is excluded from every comparison path.
    __Hidden,
}

/// The error returned when a value outside the representable range, or the
/// reserved hidden variant, reaches the serialization boundary.
#[derive(Clone, Copy, Debug, PartialEq, Eq)]
pub struct EncodeError;

/// The canonical rank of a value: its CBOR major type.  Non-negative
/// integers are 0 and negative integers are 1 regardless of which integer
/// variant holds them; null, booleans and floats all share major type 7.
/// The reserved hidden variant is given the out-of-band rank 8.
pub open spec fn major_of(v: Value) -> nat {
    match v {
        Value::Null => 7,
        Value::Bool(_) => 7,
        Value::UnsignedInteger(_) => 0,
        Value::SignedInteger(i) => if i >= 0 {
            0
        } else {
            1
        },
        Value::LargeSignedInteger(i) => if i >= 0 {
            0
        } else {
            1
        },
        Value::Float(_) => 7,
        Value::Bytes(_) => 2,
        Value::Text(_) => 3,
        Value::Array(_) => 4,
        Value::Mapping(_) => 5,
        Value::__Hidden => 8,
    }
}

/// True of the three integer variants.
pub open spec fn is_integer(v: Value) -> bool {
    v is UnsignedInteger || v is SignedInteger || v is LargeSignedInteger
}

/// The numeric value held by an integer variant.
pub open spec fn int_val(v: Value) -> int {
    match v {
        Value::UnsignedInteger(n) => n as int,
        Value::SignedInteger(i) => i as int,
        Value::LargeSignedInteger(i) => i as int,
        _ => 0,
    }
}

/// The head argument an integer encodes with: the value itself when
/// non-negative, and one less than the magnitude when negative.
pub open spec fn int_arg(v: Value) -> nat {
    if int_val(v) >= 0 {
        int_val(v) as nat
    } else {
        (-int_val(v) - 1) as nat
    }
}

/// Both halves of a map entry are serializable.
pub open spec fn entry_serializable(e: (Value, Value)) -> bool
    decreases e,
{
    serializable(e.0) && serializable(e.1)
}

/// A value the serializer accepts: no reserved variant anywhere in the tree,
/// and every large integer within the range the format can represent.
pub open spec fn serializable(v: Value) -> bool
    decreases v,
{
    match v {
        Value::Null => true,
        Value::Bool(_) => true,
        Value::UnsignedInteger(_) => true,
        Value::SignedInteger(_) => true,
        Value::LargeSignedInteger(i) => -0x10000000000000000 <= i as int
            <= 0xffffffffffffffff,
        Value::Float(_) => true,
        Value::Bytes(_) => true,
        Value::Text(_) => true,
        Value::Array(a) => forall|i: int|
            0 <= i < a@.len() ==> serializable(#[trigger] a@[i]),
        Value::Mapping(m) => forall|i: int|
            0 <= i < m@.len() ==> entry_serializable(#[trigger] m@[i]),
        Value::__Hidden => false,
    }
}

/// The canonical byte encoding of a value.
///
/// Integers use the shortest-form head for their major type and magnitude;
/// floats are one initial byte followed by the eight bytes of their bit
/// pattern; strings, arrays and maps are a head holding their length
/// followed by their contents.  The reserved hidden variant has no encoding
/// and is mapped to the empty sequence, which no reachable value produces.
pub open spec fn canon(v: Value) -> Seq<u8>
    decreases v,
{
    match v {
        Value::Null => seq![0xf6u8],
        Value::Bool(b) => if b {
            seq![0xf5u8]
        } else {
            seq![0xf4u8]
        },
        Value::UnsignedInteger(_) => head(major_of(v), int_arg(v)),
        Value::SignedInteger(_) => head(major_of(v), int_arg(v)),
        Value::LargeSignedInteger(_) => head(major_of(v), int_arg(v)),
        Value::Float(bits) => seq![0xfbu8] + be_bytes(bits as nat, 8),
        Value::Bytes(b) => head(2, b@.len()) + b@,
        Value::Text(s) => head(3, encode_utf8(s@).len()) + encode_utf8(s@),
        Value::Array(a) => head(4, a@.len()) + canon_seq(a@),
        Value::Mapping(m) => head(5, m@.len()) + canon_entries(m@),
        Value::__Hidden => Seq::empty(),
    }
}

/// The concatenated canonical encodings of a sequence of values.
pub open spec fn canon_seq(s: Seq<Value>) -> Seq<u8>
    decreases s,
{
    if s.len() == 0 {
        Seq::empty()
    } else {
        canon(s[0]) + canon_seq(s.drop_first())
    }
}

/// The concatenated canonical encodings of a sequence of map entries, each
/// key immediately followed by its value.
pub open spec fn canon_entries(s: Seq<(Value, Value)>) -> Seq<u8>
    decreases s,
{
    if s.len() == 0 {
        Seq::empty()
    } else {
        canon(s[0].0) + canon(s[0].1) + canon_entries(s.drop_first())
    }
}

/// Every value other than the reserved variant encodes to at least one byte,
/// and its first byte carries the value's major type in its top three bits.
pub proof fn lemma_canon_first(v: Value)
    requires
        major_of(v) < 8,
    ensures
        canon(v).len() > 0,
        32 * major_of(v) <= canon(v)[0] < 32 * (major_of(v) + 1),
{
    match v {
        Value::Null => {},
        Value::Bool(_) => {},
        Value::UnsignedInteger(_) => {
            crate::encoding::lemma_head_first(major_of(v), int_arg(v));
        },
        Value::SignedInteger(_) => {
            crate::encoding::lemma_head_first(major_of(v), int_arg(v));
        },
        Value::LargeSignedInteger(_) => {
            crate::encoding::lemma_head_first(major_of(v), int_arg(v));
        },
        Value::Float(bits) => {
            assert(canon(v)[0] == 0xfbu8);
        },
        Value::Bytes(b) => {
            crate::encoding::lemma_head_first(2, b@.len());
            assert(canon(v)[0] == head(2, b@.len())[0]);
        },
        Value::Text(s) => {
            crate::encoding::lemma_head_first(3, encode_utf8(s@).len());
            assert(canon(v)[0] == head(3, encode_utf8(s@).len())[0]);
        },
        Value::Array(a) => {
            crate::encoding::lemma_head_first(4, a@.len());
            assert(canon(v)[0] == head(4, a@.len())[0]);
        },
        Value::Mapping(m) => {
            crate::encoding::lemma_head_first(5, m@.len());
            assert(canon(v)[0] == head(5, m@.len())[0]);
        },
        Value::__Hidden => {},
    }
}

/// A serializable value is never the reserved variant, so its major type is
/// a real one; a serializable integer's head argument fits the format.
pub proof fn lemma_serializable_major(v: Value)
    requires
        serializable(v),
    ensures
        major_of(v) < 8,
        is_integer(v) ==> int_arg(v) < 0x10000000000000000,
{
}

/// An integer's canonical encoding is the head built from its sign class
/// and magnitude alone, so it depends only on the numeric value.
pub proof fn lemma_canon_integer(v: Value)
    requires
        is_integer(v),
    ensures
        canon(v) == head(major_of(v), int_arg(v)),
        major_of(v) == if int_val(v) >= 0 { 0int } else { 1int },
{
}

} // verus!
