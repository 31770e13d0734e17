//! The canonical serializer.
//!
//! [`serialize`] turns a value tree into its canonical byte form, the one
//! the spec function [`canon`] describes, and fails exactly on the values
//! [`serializable`] rejects: trees holding the reserved variant or a large
//! integer outside the representable range.  The comparator leans on it for
//! its last-resort tie-break.

use vstd::prelude::*;

verus! {

use crate::encoding::{be_bytes, head};
use crate::value::{canon, canon_entries, canon_seq, entry_serializable, serializable, EncodeError, Value};

/// `canon_seq` grows by one encoding per element taken.
proof fn lemma_canon_seq_take_succ(s: Seq<Value>, i: int)
    requires
        0 <= i < s.len(),
    ensures
        canon_seq(s.take(i + 1)) == canon_seq(s.take(i)) + canon(s[i]),
    decreases i,
{
    let t = s.take(i + 1);
    if i == 0 {
        assert(t.drop_first() =~= s.take(0));
        assert(canon_seq(s.take(0)) =~= Seq::<u8>::empty());
        assert(canon_seq(t) =~= canon_seq(s.take(0)) + canon(s[0]));
    } else {
        lemma_canon_seq_take_succ(s.drop_first(), i - 1);
        assert(t.drop_first() =~= s.drop_first().take(i));
        assert(s.take(i).drop_first() =~= s.drop_first().take(i - 1));
        assert(s.drop_first()[i - 1] == s[i]);
        assert(canon_seq(t) =~= canon_seq(s.take(i)) + canon(s[i])) by {
            assert(canon_seq(t) == canon(s[0]) + canon_seq(s.drop_first().take(i)));
            assert(canon_seq(s.take(i)) == canon(s[0]) + canon_seq(s.drop_first().take(i - 1)));
        }
    }
}

/// `canon_entries` grows by one key and one value encoding per entry taken.
proof fn lemma_canon_entries_take_succ(s: Seq<(Value, Value)>, i: int)
    requires
        0 <= i < s.len(),
    ensures
        canon_entries(s.take(i + 1)) == canon_entries(s.take(i)) + canon(s[i].0) + canon(s[i].1),
    decreases i,
{
    let t = s.take(i + 1);
    if i == 0 {
        assert(t.drop_first() =~= s.take(0));
        assert(canon_entries(s.take(0)) =~= Seq::<u8>::empty());
        assert(canon_entries(t) =~= canon_entries(s.take(0)) + canon(s[0].0) + canon(s[0].1));
    } else {
        lemma_canon_entries_take_succ(s.drop_first(), i - 1);
        assert(t.drop_first() =~= s.drop_first().take(i));
        assert(s.take(i).drop_first() =~= s.drop_first().take(i - 1));
        assert(s.drop_first()[i - 1] == s[i]);
        assert(canon_entries(t) =~= canon_entries(s.take(i)) + canon(s[i].0) + canon(s[i].1)) by {
            assert(canon_entries(t) == canon(s[0].0) + canon(s[0].1) + canon_entries(
                s.drop_first().take(i),
            ));
            assert(canon_entries(s.take(i)) == canon(s[0].0) + canon(s[0].1) + canon_entries(
                s.drop_first().take(i - 1),
            ));
        }
    }
}

/// Appends `x` as exactly `n` big-endian bytes.
fn push_be(out: &mut Vec<u8>, x: u64, n: usize)
    ensures
        final(out)@ == old(out)@ + be_bytes(x as nat, n as nat),
    decreases n,
{
    if n == 0 {
        assert(out@ =~= out@ + be_bytes(x as nat, 0));
    } else {
        push_be(out, x / 256, n - 1);
        out.push((x % 256) as u8);
        assert(out@ =~= old(out)@ + be_bytes(x as nat, n as nat));
    }
}

/// Appends the shortest-form head for the given major type and argument.
fn push_head(out: &mut Vec<u8>, major: u8, arg: u64)
    requires
        major < 8,
    ensures
        final(out)@ == old(out)@ + head(major as nat, arg as nat),
{
    if arg < 24 {
        out.push(32 * major + arg as u8);
        assert(out@ =~= old(out)@ + head(major as nat, arg as nat));
    } else if arg < 0x100 {
        out.push(32 * major + 24);
        push_be(out, arg, 1);
        assert(out@ =~= old(out)@ + head(major as nat, arg as nat));
    } else if arg < 0x10000 {
        out.push(32 * major + 25);
        push_be(out, arg, 2);
        assert(out@ =~= old(out)@ + head(major as nat, arg as nat));
    } else if arg < 0x100000000 {
        out.push(32 * major + 26);
        push_be(out, arg, 4);
        assert(out@ =~= old(out)@ + head(major as nat, arg as nat));
    } else {
        out.push(32 * major + 27);
        push_be(out, arg, 8);
        assert(out@ =~= old(out)@ + head(major as nat, arg as nat));
    }
}

/// Appends a whole byte slice.
fn push_slice(out: &mut Vec<u8>, s: &[u8])
    ensures
        final(out)@ == old(out)@ + s@,
{
    let n = s.len();
    let mut i: usize = 0;
    while i < n
        invariant
            0 <= i <= n,
            n == s@.len(),
            out@ == old(out)@ + s@.take(i as int),
        decreases n - i,
    {
        out.push(s[i]);
        assert(s@.take(i + 1 as int) =~= s@.take(i as int).push(s@[i as int]));
        i = i + 1;
    }
    assert(s@.take(n as int) =~= s@);
}

/// Appends the canonical encoding of a value.
fn encode_into(v: &Value, out: &mut Vec<u8>)
    requires
        serializable(*v),
    ensures
        final(out)@ == old(out)@ + canon(*v),
    decreases *v,
{
    match v {
        Value::Null => {
            out.push(0xf6);
            assert(out@ =~= old(out)@ + canon(*v));
        },
        Value::Bool(b) => {
            out.push(if *b {
                0xf5
            } else {
                0xf4
            });
            assert(out@ =~= old(out)@ + canon(*v));
        },
        Value::UnsignedInteger(n) => {
            push_head(out, 0, *n);
        },
        Value::SignedInteger(i) => {
            if *i >= 0 {
                push_head(out, 0, *i as u64);
            } else {
                push_head(out, 1, (-(*i + 1)) as u64);
            }
        },
        Value::LargeSignedInteger(i) => {
            if *i >= 0 {
                push_head(out, 0, *i as u64);
            } else {
                push_head(out, 1, (-(*i + 1)) as u64);
            }
        },
        Value::Float(bits) => {
            out.push(0xfb);
            push_be(out, *bits, 8);
            assert(out@ =~= old(out)@ + canon(*v));
        },
        Value::Bytes(b) => {
            push_head(out, 2, b.len() as u64);
            push_slice(out, b.as_slice());
            assert(out@ =~= old(out)@ + canon(*v));
        },
        Value::Text(s) => {
            let bs = s.as_str().as_bytes();
            push_head(out, 3, bs.len() as u64);
            push_slice(out, bs);
            assert(out@ =~= old(out)@ + canon(*v));
        },
        Value::Array(a) => {
            push_head(out, 4, a.len() as u64);
            let ghost base = out@;
            let n = a.len();
            let mut i: usize = 0;
            while i < n
                invariant
                    0 <= i <= n,
                    n == a@.len(),
                    serializable(*v),
                    *v == Value::Array(*a),
                    out@ == base + canon_seq(a@.take(i as int)),
                decreases n - i,
            {
                proof {
                    assert(*v is Array);
                    assert(v->Array_0 == *a);
                    assert(serializable(a@[i as int]));
                    assert(decreases_to!(*v => v->Array_0));
                    assert(decreases_to!(a@ => a@[i as int]));
                }
                encode_into(&a[i], out);
                proof {
                    lemma_canon_seq_take_succ(a@, i as int);
                }
                i = i + 1;
            }
            assert(a@.take(n as int) =~= a@);
            assert(out@ =~= old(out)@ + canon(*v));
        },
        Value::Mapping(m) => {
            push_head(out, 5, m.len() as u64);
            let ghost base = out@;
            let n = m.len();
            let mut i: usize = 0;
            while i < n
                invariant
                    0 <= i <= n,
                    n == m@.len(),
                    serializable(*v),
                    *v == Value::Mapping(*m),
                    out@ == base + canon_entries(m@.take(i as int)),
                decreases n - i,
            {
                proof {
                    assert(*v is Mapping);
                    assert(v->Mapping_0 == *m);
                    assert(entry_serializable(m@[i as int]));
                    assert(serializable(m@[i as int].0));
                    assert(serializable(m@[i as int].1));
                    assert(decreases_to!(*v => v->Mapping_0));
                    assert(decreases_to!(m@ => m@[i as int]));
                    assert(decreases_to!(m@[i as int] => m@[i as int].0));
                    assert(decreases_to!(m@[i as int] => m@[i as int].1));
                }
                encode_into(&m[i].0, out);
                encode_into(&m[i].1, out);
                proof {
                    lemma_canon_entries_take_succ(m@, i as int);
                }
                i = i + 1;
            }
            assert(m@.take(n as int) =~= m@);
            assert(out@ =~= old(out)@ + canon(*v));
        },
        Value::__Hidden => {
            proof {
                assert(false);
            }
        },
    }
}

/// The canonical encoding of a serializable value.
pub(crate) fn encode(v: &Value) -> (r: Vec<u8>)
    requires
        serializable(*v),
    ensures
        r@ == canon(*v),
{
    let mut out: Vec<u8> = Vec::new();
    encode_into(v, &mut out);
    out
}

/// Whether the serializer accepts this value: no reserved variant anywhere
/// in the tree, and every large integer within the representable range.
pub fn is_serializable(v: &Value) -> (r: bool)
    ensures
        r == serializable(*v),
    decreases *v,
{
    match v {
        Value::Null => true,
        Value::Bool(_) => true,
        Value::UnsignedInteger(_) => true,
        Value::SignedInteger(_) => true,
        Value::LargeSignedInteger(i) => -0x10000000000000000i128 <= *i && *i
            <= 0xffffffffffffffffi128,
        Value::Float(_) => true,
        Value::Bytes(_) => true,
        Value::Text(_) => true,
        Value::Array(a) => {
            let n = a.len();
            let mut i: usize = 0;
            while i < n
                invariant
                    0 <= i <= n,
                    n == a@.len(),
                    *v == Value::Array(*a),
                    forall|j: int| 0 <= j < i ==> serializable(#[trigger] a@[j]),
                decreases n - i,
            {
                proof {
                    assert(*v is Array);
                    assert(v->Array_0 == *a);
                    assert(decreases_to!(*v => v->Array_0));
                    assert(decreases_to!(a@ => a@[i as int]));
                }
                if !is_serializable(&a[i]) {
                    proof {
                        assert(!serializable(a@[i as int]));
                    }
                    return false;
                }
                i = i + 1;
            }
            true
        },
        Value::Mapping(m) => {
            let n = m.len();
            let mut i: usize = 0;
            while i < n
                invariant
                    0 <= i <= n,
                    n == m@.len(),
                    *v == Value::Mapping(*m),
                    forall|j: int| 0 <= j < i ==> entry_serializable(#[trigger] m@[j]),
                decreases n - i,
            {
                proof {
                    assert(*v is Mapping);
                    assert(v->Mapping_0 == *m);
                    assert(decreases_to!(*v => v->Mapping_0));
                    assert(decreases_to!(m@ => m@[i as int]));
                    assert(decreases_to!(m@[i as int] => m@[i as int].0));
                    assert(decreases_to!(m@[i as int] => m@[i as int].1));
                }
                if !is_serializable(&m[i].0) {
                    proof {
                        assert(!entry_serializable(m@[i as int]));
                    }
                    return false;
                }
                if !is_serializable(&m[i].1) {
                    proof {
                        assert(!entry_serializable(m@[i as int]));
                    }
                    return false;
                }
                proof {
                    assert(entry_serializable(m@[i as int]));
                }
                i = i + 1;
            }
            true
        },
        Value::__Hidden => false,
    }
}

/// Serializes a value to its canonical byte form.
///
/// Succeeds exactly on serializable values and returns their canonical
/// encoding; rejects a tree holding the reserved variant or an
/// out-of-range large integer.
pub fn serialize(v: &Value) -> (r: Result<Vec<u8>, EncodeError>)
    ensures
        match r {
            Ok(bytes) => serializable(*v) && bytes@ == canon(*v),
            Err(_) => !serializable(*v),
        },
{
    if is_serializable(v) {
        Ok(encode(v))
    } else {
        Err(EncodeError)
    }
}

} // verus!
