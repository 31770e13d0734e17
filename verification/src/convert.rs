//! One-way lifting of native primitive types into `Value`.
//!
//! Booleans, the fixed-width integers, byte buffers, text, sequences of
//! values and entry lists all lift infallibly: signed integers widen to 64
//! bits into `SignedInteger`, unsigned ones into `UnsignedInteger`.  The
//! 128-bit integer types deliberately have no lifting, since not every such
//! value is representable in the format; they go through
//! `Value::LargeSignedInteger` directly, and the serialization boundary
//! rejects the out-of-range ones.  Floating point lifts from outside the
//! verified core by way of the IEEE-754 bit pattern held by `Value::Float`.

use vstd::prelude::*;

verus! {

use crate::value::Value;

impl From<bool> for Value {
    fn from(v: bool) -> (r: Value) {
        Value::Bool(v)
    }
}

impl vstd::std_specs::convert::FromSpecImpl<bool> for Value {
    open spec fn obeys_from_spec() -> bool {
        true
    }

    open spec fn from_spec(v: bool) -> Value {
        Value::Bool(v)
    }
}

impl From<i8> for Value {
    fn from(v: i8) -> (r: Value) {
        Value::SignedInteger(v as i64)
    }
}

impl vstd::std_specs::convert::FromSpecImpl<i8> for Value {
    open spec fn obeys_from_spec() -> bool {
        true
    }

    open spec fn from_spec(v: i8) -> Value {
        Value::SignedInteger(v as i64)
    }
}

impl From<i16> for Value {
    fn from(v: i16) -> (r: Value) {
        Value::SignedInteger(v as i64)
    }
}

impl vstd::std_specs::convert::FromSpecImpl<i16> for Value {
    open spec fn obeys_from_spec() -> bool {
        true
    }

    open spec fn from_spec(v: i16) -> Value {
        Value::SignedInteger(v as i64)
    }
}

impl From<i32> for Value {
    fn from(v: i32) -> (r: Value) {
        Value::SignedInteger(v as i64)
    }
}

impl vstd::std_specs::convert::FromSpecImpl<i32> for Value {
    open spec fn obeys_from_spec() -> bool {
        true
    }

    open spec fn from_spec(v: i32) -> Value {
        Value::SignedInteger(v as i64)
    }
}

impl From<i64> for Value {
    fn from(v: i64) -> (r: Value) {
        Value::SignedInteger(v)
    }
}

impl vstd::std_specs::convert::FromSpecImpl<i64> for Value {
    open spec fn obeys_from_spec() -> bool {
        true
    }

    open spec fn from_spec(v: i64) -> Value {
        Value::SignedInteger(v)
    }
}

impl From<u8> for Value {
    fn from(v: u8) -> (r: Value) {
        Value::UnsignedInteger(v as u64)
    }
}

impl vstd::std_specs::convert::FromSpecImpl<u8> for Value {
    open spec fn obeys_from_spec() -> bool {
        true
    }

    open spec fn from_spec(v: u8) -> Value {
        Value::UnsignedInteger(v as u64)
    }
}

impl From<u16> for Value {
    fn from(v: u16) -> (r: Value) {
        Value::UnsignedInteger(v as u64)
    }
}

impl vstd::std_specs::convert::FromSpecImpl<u16> for Value {
    open spec fn obeys_from_spec() -> bool {
        true
    }

    open spec fn from_spec(v: u16) -> Value {
        Value::UnsignedInteger(v as u64)
    }
}

impl From<u32> for Value {
    fn from(v: u32) -> (r: Value) {
        Value::UnsignedInteger(v as u64)
    }
}

impl vstd::std_specs::convert::FromSpecImpl<u32> for Value {
    open spec fn obeys_from_spec() -> bool {
        true
    }

    open spec fn from_spec(v: u32) -> Value {
        Value::UnsignedInteger(v as u64)
    }
}

impl From<u64> for Value {
    fn from(v: u64) -> (r: Value) {
        Value::UnsignedInteger(v)
    }
}

impl vstd::std_specs::convert::FromSpecImpl<u64> for Value {
    open spec fn obeys_from_spec() -> bool {
        true
    }

    open spec fn from_spec(v: u64) -> Value {
        Value::UnsignedInteger(v)
    }
}

impl From<Vec<u8>> for Value {
    fn from(v: Vec<u8>) -> (r: Value) {
        Value::Bytes(v)
    }
}

impl vstd::std_specs::convert::FromSpecImpl<Vec<u8>> for Value {
    open spec fn obeys_from_spec() -> bool {
        true
    }

    open spec fn from_spec(v: Vec<u8>) -> Value {
        Value::Bytes(v)
    }
}

impl From<String> for Value {
    fn from(v: String) -> (r: Value) {
        Value::Text(v)
    }
}

impl vstd::std_specs::convert::FromSpecImpl<String> for Value {
    open spec fn obeys_from_spec() -> bool {
        true
    }

    open spec fn from_spec(v: String) -> Value {
        Value::Text(v)
    }
}

/// Lifts an entry list that is already in canonical key order, the
/// counterpart of lifting a sorted mapping.  Entries in arbitrary order go
/// through [`crate::map_from_entries`], which sorts them.
impl From<Vec<(Value, Value)>> for Value {
    fn from(v: Vec<(Value, Value)>) -> (r: Value) {
        Value::Mapping(v)
    }
}

impl vstd::std_specs::convert::FromSpecImpl<Vec<(Value, Value)>> for Value {
    open spec fn obeys_from_spec() -> bool {
        true
    }

    open spec fn from_spec(v: Vec<(Value, Value)>) -> Value {
        Value::Mapping(v)
    }
}

impl From<Vec<Value>> for Value {
    fn from(v: Vec<Value>) -> (r: Value) {
        Value::Array(v)
    }
}

impl vstd::std_specs::convert::FromSpecImpl<Vec<Value>> for Value {
    open spec fn obeys_from_spec() -> bool {
        true
    }

    open spec fn from_spec(v: Vec<Value>) -> Value {
        Value::Array(v)
    }
}

} // verus!
