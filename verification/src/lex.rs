//! Lexicographic ordering of byte sequences.
//!
//! The canonical order on values is defined as the lexicographic order of
//! their canonical encodings, so the basic facts proved here (it is a total
//! order, and it interacts predictably with concatenation) carry the whole
//! comparator.

use vstd::prelude::*;

verus! {

use core::cmp::Ordering;

/// Lexicographic comparison of two byte sequences: the first differing byte
/// decides, and a proper prefix sorts before any of its extensions.
pub open spec fn lex_cmp(a: Seq<u8>, b: Seq<u8>) -> Ordering
    decreases a.len(),
{
    if a.len() == 0 && b.len() == 0 {
        Ordering::Equal
    } else if a.len() == 0 {
        Ordering::Less
    } else if b.len() == 0 {
        Ordering::Greater
    } else if a[0] < b[0] {
        Ordering::Less
    } else if b[0] < a[0] {
        Ordering::Greater
    } else {
        lex_cmp(a.drop_first(), b.drop_first())
    }
}

/// `a` is an initial segment of `b`.
pub open spec fn is_prefix(a: Seq<u8>, b: Seq<u8>) -> bool {
    a.len() <= b.len() && a == b.take(a.len() as int)
}

/// Two byte sequences compare `Equal` exactly when they are the same sequence.
pub proof fn lemma_lex_cmp_equal(a: Seq<u8>, b: Seq<u8>)
    ensures
        lex_cmp(a, b) == Ordering::Equal <==> a == b,
    decreases a.len(),
{
    if a.len() == 0 && b.len() == 0 {
        assert(a =~= b);
    } else if a.len() == 0 || b.len() == 0 {
    } else if a[0] == b[0] {
        lemma_lex_cmp_equal(a.drop_first(), b.drop_first());
        if lex_cmp(a, b) == Ordering::Equal {
            assert(a.drop_first() == b.drop_first());
            assert(a =~= b) by {
                assert forall|i: int| 0 <= i < a.len() implies a[i] == b[i] by {
                    if i > 0 {
                        assert(a.drop_first()[i - 1] == b.drop_first()[i - 1]);
                    }
                }
            }
        } else {
            if a == b {
                assert(a.drop_first() == b.drop_first());
            }
        }
    } else {
        if a == b {
            assert(a[0] == b[0]);
        }
    }
}

/// Swapping the arguments swaps `Less` and `Greater` and keeps `Equal`.
pub proof fn lemma_lex_cmp_flip(a: Seq<u8>, b: Seq<u8>)
    ensures
        lex_cmp(a, b) == Ordering::Less <==> lex_cmp(b, a) == Ordering::Greater,
        lex_cmp(a, b) == Ordering::Equal <==> lex_cmp(b, a) == Ordering::Equal,
    decreases a.len(),
{
    if a.len() != 0 && b.len() != 0 && a[0] == b[0] {
        lemma_lex_cmp_flip(a.drop_first(), b.drop_first());
    }
}

/// Strict lexicographic order is transitive.
pub proof fn lemma_lex_cmp_trans(a: Seq<u8>, b: Seq<u8>, c: Seq<u8>)
    requires
        lex_cmp(a, b) == Ordering::Less,
        lex_cmp(b, c) == Ordering::Less,
    ensures
        lex_cmp(a, c) == Ordering::Less,
    decreases a.len(),
{
    if a.len() == 0 {
    } else {
        if a[0] == b[0] && b[0] == c[0] {
            lemma_lex_cmp_trans(a.drop_first(), b.drop_first(), c.drop_first());
        }
    }
}

/// Comparison after a shared prefix is comparison of the remainders.
pub proof fn lemma_lex_cmp_prefix(p: Seq<u8>, a: Seq<u8>, b: Seq<u8>)
    ensures
        lex_cmp(p + a, p + b) == lex_cmp(a, b),
    decreases p.len(),
{
    if p.len() == 0 {
        assert(p + a =~= a);
        assert(p + b =~= b);
    } else {
        assert((p + a)[0] == p[0]);
        assert((p + b)[0] == p[0]);
        assert((p + a).drop_first() =~= p.drop_first() + a);
        assert((p + b).drop_first() =~= p.drop_first() + b);
        lemma_lex_cmp_prefix(p.drop_first(), a, b);
    }
}

/// A strict difference before the end of either side decides the comparison
/// of any extensions: if `a` sorts below `b` other than by being a prefix of
/// it, then `a` followed by anything sorts below `b` followed by anything.
pub proof fn lemma_lex_cmp_strict_concat(a: Seq<u8>, b: Seq<u8>, x: Seq<u8>, y: Seq<u8>)
    requires
        lex_cmp(a, b) == Ordering::Less,
        !is_prefix(a, b),
    ensures
        lex_cmp(a + x, b + y) == Ordering::Less,
    decreases a.len(),
{
    if a.len() == 0 {
        assert(a =~= b.take(0));
    } else if b.len() == 0 {
    } else if a[0] < b[0] {
        assert((a + x)[0] == a[0]);
        assert((b + y)[0] == b[0]);
    } else {
        assert(a[0] == b[0]);
        assert((a + x)[0] == (b + y)[0]);
        assert((a + x).drop_first() =~= a.drop_first() + x);
        assert((b + y).drop_first() =~= b.drop_first() + y);
        if is_prefix(a.drop_first(), b.drop_first()) {
            assert(a =~= b.take(a.len() as int)) by {
                assert(a.drop_first() == b.drop_first().take(a.len() as int - 1));
                assert forall|i: int| 0 <= i < a.len() implies a[i] == b.take(a.len() as int)[i] by {
                    if i > 0 {
                        assert(a.drop_first()[i - 1] == b.drop_first().take(a.len() as int - 1)[i - 1]);
                    }
                }
            }
        }
        lemma_lex_cmp_strict_concat(a.drop_first(), b.drop_first(), x, y);
    }
}

/// Dropping the same agreeing prefix from both sides keeps the comparison.
pub proof fn lemma_lex_cmp_skip(a: Seq<u8>, b: Seq<u8>, i: int)
    requires
        0 <= i <= a.len(),
        i <= b.len(),
        a.take(i) == b.take(i),
    ensures
        lex_cmp(a, b) == lex_cmp(a.skip(i), b.skip(i)),
{
    assert(a =~= a.take(i) + a.skip(i));
    assert(b =~= b.take(i) + b.skip(i));
    lemma_lex_cmp_prefix(a.take(i), a.skip(i), b.skip(i));
}

/// When the first bytes already differ, they decide the comparison.
pub proof fn lemma_lex_cmp_first_lt(a: Seq<u8>, b: Seq<u8>)
    requires
        a.len() > 0,
        b.len() > 0,
        a[0] < b[0],
    ensures
        lex_cmp(a, b) == Ordering::Less,
{
}

/// Lexicographic comparison of two byte slices.
pub fn lex_cmp_bytes(a: &[u8], b: &[u8]) -> (r: Ordering)
    ensures
        r == lex_cmp(a@, b@),
{
    let alen = a.len();
    let blen = b.len();
    let n = if alen < blen { alen } else { blen };
    let mut i: usize = 0;
    while i < n
        invariant
            0 <= i <= n,
            n == if alen < blen { alen } else { blen },
            alen == a@.len(),
            blen == b@.len(),
            a@.take(i as int) == b@.take(i as int),
        decreases n - i,
    {
        let ab = a[i];
        let bb = b[i];
        proof {
            lemma_lex_cmp_skip(a@, b@, i as int);
        }
        if ab < bb {
            proof {
                assert(a@.skip(i as int)[0] == ab);
                assert(b@.skip(i as int)[0] == bb);
            }
            return Ordering::Less;
        } else if bb < ab {
            proof {
                assert(a@.skip(i as int)[0] == ab);
                assert(b@.skip(i as int)[0] == bb);
            }
            return Ordering::Greater;
        }
        proof {
            assert(a@.take(i + 1 as int) =~= b@.take(i + 1 as int)) by {
                assert(a@.take(i as int) == b@.take(i as int));
                assert(a@[i as int] == b@[i as int]);
                assert forall|j: int| 0 <= j < i + 1 implies #[trigger] a@.take(i + 1 as int)[j]
                    == b@.take(i + 1 as int)[j] by {
                    if j < i {
                        assert(a@.take(i as int)[j] == b@.take(i as int)[j]);
                    }
                }
            }
        }
        i = i + 1;
    }
    proof {
        lemma_lex_cmp_skip(a@, b@, n as int);
    }
    if alen < blen {
        proof {
            assert(a@.skip(n as int).len() == 0);
            assert(b@.skip(n as int).len() > 0);
        }
        Ordering::Less
    } else if blen < alen {
        proof {
            assert(b@.skip(n as int).len() == 0);
            assert(a@.skip(n as int).len() > 0);
        }
        Ordering::Greater
    } else {
        proof {
            assert(a@.skip(n as int).len() == 0);
            assert(b@.skip(n as int).len() == 0);
        }
        Ordering::Equal
    }
}

} // verus!
