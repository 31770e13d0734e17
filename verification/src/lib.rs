//! Canonical CBOR value model.
//!
//! A `Value` is an in-memory tree covering every CBOR major type, together
//! with the canonical total order that makes map keys, and therefore whole
//! encoded messages, byte-for-byte deterministic.  The order is defined as
//! lexicographic comparison of the canonical byte encodings, and `compare`
//! is proved to implement it; the usual shortcut rules (smaller major type
//! first, shorter sequence first, integers by magnitude) are proved to agree
//! with the byte-level order.

pub mod compare;
pub mod convert;
pub mod laws;
pub mod map;
pub mod encoding;
pub mod lex;
pub mod serialize;
pub mod value;

pub use compare::canonical_cmp;
pub use compare::compare;
pub use compare::try_compare;
pub use compare::equals;
pub use lex::lex_cmp;
pub use map::map_from_entries;
pub use map::map_get;
pub use map::map_insert;
pub use map::map_remove;
pub use serialize::is_serializable;
pub use serialize::serialize;
pub use value::EncodeError;
pub use value::Value;
