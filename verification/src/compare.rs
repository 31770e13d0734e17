//! The canonical comparator.
//!
//! [`compare`] determines the canonical order of two values:
//! 1. Smaller major type sorts first.
//! 2. Shorter sequence sorts first.
//! 3. Integers compare by magnitude.
//! 4. Byte and text sequences compare lexically.
//! 5. Anything else compares by its serialization (expensive).
//!
//! Each shortcut is proved to agree with the byte-level order, so the whole
//! function returns exactly the lexicographic comparison of the two
//! canonical encodings — the order the serialized messages themselves have.

use vstd::prelude::*;

verus! {

use core::cmp::Ordering;
use vstd::utf8::encode_utf8;
use crate::encoding::head;
use crate::lex::{lex_cmp, lemma_lex_cmp_equal, lemma_lex_cmp_first_lt, lemma_lex_cmp_flip,
    lemma_lex_cmp_prefix, lemma_lex_cmp_strict_concat};
use crate::serialize::encode;
use crate::value::{canon, int_arg, int_val, is_integer, major_of, serializable, Value};
use crate::lex::lex_cmp_bytes;

/// The canonical order of two values: the lexicographic order of their
/// canonical byte encodings.  Equality of values is defined as comparing
/// `Equal` here — two values are equal exactly when they serialize to the
/// same canonical bytes.
pub open spec fn canonical_cmp(a: Value, b: Value) -> Ordering {
    lex_cmp(canon(a), canon(b))
}

/// A value of smaller major type sorts before one of larger major type,
/// whatever either holds: the major type sits in the top bits of the first
/// encoded byte.
proof fn lemma_rank_order(a: Value, b: Value)
    requires
        major_of(a) < major_of(b),
        major_of(b) < 8,
    ensures
        canonical_cmp(a, b) == Ordering::Less,
{
    crate::value::lemma_canon_first(a);
    crate::value::lemma_canon_first(b);
    lemma_lex_cmp_first_lt(canon(a), canon(b));
}

/// For containers of one major type, a shorter one sorts first regardless
/// of the contents that follow the heads.
proof fn lemma_container_shorter(mj: nat, la: nat, lb: nat, ra: Seq<u8>, rb: Seq<u8>)
    requires
        mj < 8,
        la < lb,
        lb < 0x10000000000000000,
    ensures
        lex_cmp(head(mj, la) + ra, head(mj, lb) + rb) == Ordering::Less,
{
    crate::encoding::lemma_head_mono(mj, la, lb);
    lemma_lex_cmp_strict_concat(head(mj, la), head(mj, lb), ra, rb);
}

/// Three-way comparison of two unsigned 64-bit values.
fn cmp_u64(x: u64, y: u64) -> (r: Ordering)
    ensures
        r == if x < y {
            Ordering::Less
        } else if x == y {
            Ordering::Equal
        } else {
            Ordering::Greater
        },
{
    if x < y {
        Ordering::Less
    } else if x == y {
        Ordering::Equal
    } else {
        Ordering::Greater
    }
}

/// The head argument of an integer value: the value itself when
/// non-negative, one less than the magnitude when negative.  Promoting to a
/// wider integer type before negating means the most negative
/// representable values cannot overflow.
fn int_arg_exec(v: &Value) -> (r: u64)
    requires
        is_integer(*v),
        serializable(*v),
    ensures
        r as nat == int_arg(*v),
{
    match v {
        Value::UnsignedInteger(n) => *n,
        Value::SignedInteger(i) => {
            if *i >= 0 {
                *i as u64
            } else {
                (-(*i + 1)) as u64
            }
        },
        Value::LargeSignedInteger(i) => {
            if *i >= 0 {
                *i as u64
            } else {
                (-(*i + 1)) as u64
            }
        },
        _ => {
            proof {
                assert(false);
            }
            0
        },
    }
}

/// The CBOR major type of a value, with sign class deciding for integers.
fn major_type(v: &Value) -> (r: u8)
    requires
        major_of(*v) < 8,
    ensures
        r as nat == major_of(*v),
{
    match v {
        Value::Null => 7,
        Value::Bool(_) => 7,
        Value::UnsignedInteger(_) => 0,
        Value::SignedInteger(i) => {
            if *i >= 0 {
                0
            } else {
                1
            }
        },
        Value::LargeSignedInteger(i) => {
            if *i >= 0 {
                0
            } else {
                1
            }
        },
        Value::Float(_) => 7,
        Value::Bytes(_) => 2,
        Value::Text(_) => 3,
        Value::Array(_) => 4,
        Value::Mapping(_) => 5,
        Value::__Hidden => {
            proof {
                assert(false);
            }
            0
        },
    }
}

/// True of the three integer variants.
fn is_integer_exec(v: &Value) -> (r: bool)
    ensures
        r == is_integer(*v),
{
    match v {
        Value::UnsignedInteger(_) => true,
        Value::SignedInteger(_) => true,
        Value::LargeSignedInteger(_) => true,
        _ => false,
    }
}

/// The last-resort tie-break: serialize both values to canonical bytes and
/// compare those lexicographically.
fn compare_serialized(a: &Value, b: &Value) -> (r: Ordering)
    requires
        serializable(*a),
        serializable(*b),
    ensures
        r == canonical_cmp(*a, *b),
{
    let ea = encode(a);
    let eb = encode(b);
    lex_cmp_bytes(ea.as_slice(), eb.as_slice())
}

/// Determines the canonical order of two values.
///
/// The result is exactly the lexicographic order of the two canonical byte
/// encodings, which is what makes map-key order and serialized messages
/// deterministic.  Equality of values is defined as this returning
/// `Equal`: an `UnsignedInteger`, a `SignedInteger` and a
/// `LargeSignedInteger` holding one numeric value all compare `Equal`.
pub fn compare(a: &Value, b: &Value) -> (r: Ordering)
    requires
        serializable(*a),
        serializable(*b),
    ensures
        r == canonical_cmp(*a, *b),
{
    proof {
        crate::value::lemma_serializable_major(*a);
        crate::value::lemma_serializable_major(*b);
    }
    let ma = major_type(a);
    let mb = major_type(b);
    if ma != mb {
        if ma < mb {
            proof {
                lemma_rank_order(*a, *b);
            }
            return Ordering::Less;
        } else {
            proof {
                lemma_rank_order(*b, *a);
                lemma_lex_cmp_flip(canon(*a), canon(*b));
            }
            return Ordering::Greater;
        }
    }
    if is_integer_exec(a) && is_integer_exec(b) {
        let xa = int_arg_exec(a);
        let xb = int_arg_exec(b);
        proof {
            crate::value::lemma_canon_integer(*a);
            crate::value::lemma_canon_integer(*b);
            crate::encoding::lemma_head_cmp(major_of(*a), int_arg(*a), int_arg(*b));
        }
        return cmp_u64(xa, xb);
    }
    match (a, b) {
        (Value::Bytes(x), Value::Bytes(y)) => {
            let xl = x.len();
            let yl = y.len();
            if xl < yl {
                proof {
                    lemma_container_shorter(2, x@.len(), y@.len(), x@, y@);
                }
                Ordering::Less
            } else if yl < xl {
                proof {
                    lemma_container_shorter(2, y@.len(), x@.len(), y@, x@);
                    lemma_lex_cmp_flip(canon(*a), canon(*b));
                }
                Ordering::Greater
            } else {
                let r = lex_cmp_bytes(x.as_slice(), y.as_slice());
                proof {
                    lemma_lex_cmp_prefix(head(2, x@.len()), x@, y@);
                }
                r
            }
        },
        (Value::Text(x), Value::Text(y)) => {
            let xb = x.as_str().as_bytes();
            let yb = y.as_str().as_bytes();
            let xl = xb.len();
            let yl = yb.len();
            proof {
                assert(xb@ == encode_utf8(x@));
                assert(yb@ == encode_utf8(y@));
            }
            if xl < yl {
                proof {
                    lemma_container_shorter(3, xb@.len(), yb@.len(), xb@, yb@);
                }
                Ordering::Less
            } else if yl < xl {
                proof {
                    lemma_container_shorter(3, yb@.len(), xb@.len(), yb@, xb@);
                    lemma_lex_cmp_flip(canon(*a), canon(*b));
                }
                Ordering::Greater
            } else {
                let r = lex_cmp_bytes(xb, yb);
                proof {
                    lemma_lex_cmp_prefix(head(3, xb@.len()), xb@, yb@);
                }
                r
            }
        },
        (Value::Array(x), Value::Array(y)) => {
            let xl = x.len();
            let yl = y.len();
            if xl < yl {
                proof {
                    lemma_container_shorter(
                        4,
                        x@.len(),
                        y@.len(),
                        crate::value::canon_seq(x@),
                        crate::value::canon_seq(y@),
                    );
                }
                Ordering::Less
            } else if yl < xl {
                proof {
                    lemma_container_shorter(
                        4,
                        y@.len(),
                        x@.len(),
                        crate::value::canon_seq(y@),
                        crate::value::canon_seq(x@),
                    );
                    lemma_lex_cmp_flip(canon(*a), canon(*b));
                }
                Ordering::Greater
            } else {
                compare_serialized(a, b)
            }
        },
        (Value::Mapping(x), Value::Mapping(y)) => {
            let xl = x.len();
            let yl = y.len();
            if xl < yl {
                proof {
                    lemma_container_shorter(
                        5,
                        x@.len(),
                        y@.len(),
                        crate::value::canon_entries(x@),
                        crate::value::canon_entries(y@),
                    );
                }
                Ordering::Less
            } else if yl < xl {
                proof {
                    lemma_container_shorter(
                        5,
                        y@.len(),
                        x@.len(),
                        crate::value::canon_entries(y@),
                        crate::value::canon_entries(x@),
                    );
                    lemma_lex_cmp_flip(canon(*a), canon(*b));
                }
                Ordering::Greater
            } else {
                compare_serialized(a, b)
            }
        },
        _ => compare_serialized(a, b),
    }
}

/// Determines the canonical order of two values, after checking that both
/// are serializable.
///
/// Comparison may have to fall back to serializing its operands, and a
/// value the serializer rejects has no place in the canonical order, so
/// comparing one is a logic fault rather than an ordering outcome: this
/// checked form reports it as `None` instead of guessing an order.
pub fn try_compare(a: &Value, b: &Value) -> (r: Option<Ordering>)
    ensures
        match r {
            Some(o) => serializable(*a) && serializable(*b) && o == canonical_cmp(*a, *b),
            None => !(serializable(*a) && serializable(*b)),
        },
{
    if crate::serialize::is_serializable(a) && crate::serialize::is_serializable(b) {
        Some(compare(a, b))
    } else {
        None
    }
}

/// Whether two values are equal under the canonical order.
///
/// There is no independent notion of equality: values are equal exactly
/// when [`compare`] returns `Equal`, that is, when their canonical
/// encodings coincide.
pub fn equals(a: &Value, b: &Value) -> (r: bool)
    requires
        serializable(*a),
        serializable(*b),
    ensures
        r == (canonical_cmp(*a, *b) == Ordering::Equal),
        r == (canon(*a) == canon(*b)),
{
    proof {
        lemma_lex_cmp_equal(canon(*a), canon(*b));
    }
    match compare(a, b) {
        Ordering::Equal => true,
        _ => false,
    }
}

} // verus!
