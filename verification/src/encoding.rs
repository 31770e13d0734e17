//! The head of a canonical CBOR data item.
//!
//! Every data item starts with one byte holding the major type in its top
//! three bits and additional information in the low five, followed by the
//! shortest big-endian argument that the additional information calls for.
//! The facts proved here — the first byte reveals the major type, and for a
//! fixed major type a smaller argument gives a strictly smaller encoding —
//! are what let the comparator take its shortcuts without ever leaving the
//! byte-level order.

use vstd::prelude::*;

verus! {

use core::cmp::Ordering;
use crate::lex::{lex_cmp, is_prefix, lemma_lex_cmp_equal, lemma_lex_cmp_prefix,
    lemma_lex_cmp_strict_concat};

/// `256^n`, the number of values a big-endian field of `n` bytes can hold.
pub open spec fn pow256(n: nat) -> nat
    decreases n,
{
    if n == 0 {
        1
    } else {
        256 * pow256((n - 1) as nat)
    }
}

/// The value `x`, written as exactly `n` big-endian bytes.
pub open spec fn be_bytes(x: nat, n: nat) -> Seq<u8>
    decreases n,
{
    if n == 0 {
        Seq::empty()
    } else {
        be_bytes(x / 256, (n - 1) as nat).push((x % 256) as u8)
    }
}

/// The initial bytes of a data item with the given major type and argument:
/// the shortest-form head required by the canonical encoding.
pub open spec fn head(major: nat, arg: nat) -> Seq<u8> {
    if arg < 24 {
        seq![(32 * major + arg) as u8]
    } else if arg < 0x100 {
        seq![(32 * major + 24) as u8] + be_bytes(arg, 1)
    } else if arg < 0x10000 {
        seq![(32 * major + 25) as u8] + be_bytes(arg, 2)
    } else if arg < 0x100000000 {
        seq![(32 * major + 26) as u8] + be_bytes(arg, 4)
    } else {
        seq![(32 * major + 27) as u8] + be_bytes(arg, 8)
    }
}

pub proof fn lemma_be_bytes_len(x: nat, n: nat)
    ensures
        be_bytes(x, n).len() == n,
    decreases n,
{
    if n > 0 {
        lemma_be_bytes_len(x / 256, (n - 1) as nat);
    }
}

/// Under a fixed width, a smaller value gives a lexicographically smaller
/// byte string.
pub proof fn lemma_be_bytes_mono(x: nat, y: nat, n: nat)
    requires
        x < y,
        y < pow256(n),
    ensures
        lex_cmp(be_bytes(x, n), be_bytes(y, n)) == Ordering::Less,
    decreases n,
{
    vstd::arithmetic::div_mod::lemma_fundamental_div_mod(x as int, 256);
    vstd::arithmetic::div_mod::lemma_fundamental_div_mod(y as int, 256);
    vstd::arithmetic::div_mod::lemma_mod_bound(x as int, 256);
    vstd::arithmetic::div_mod::lemma_mod_bound(y as int, 256);
    lemma_be_bytes_len(x / 256, (n - 1) as nat);
    lemma_be_bytes_len(y / 256, (n - 1) as nat);
    let xh = x / 256;
    let yh = y / 256;
    let xtail = seq![(x % 256) as u8];
    let ytail = seq![(y % 256) as u8];
    assert(be_bytes(x, n) =~= be_bytes(xh, (n - 1) as nat) + xtail);
    assert(be_bytes(y, n) =~= be_bytes(yh, (n - 1) as nat) + ytail);
    assert(yh < pow256((n - 1) as nat)) by {
        assert(256 * yh <= y);
        assert(y < 256 * pow256((n - 1) as nat));
    }
    assert(xh <= yh) by {
        if xh > yh {
            assert(256 * xh >= 256 * (yh + 1));
        }
    }
    if xh == yh {
        lemma_lex_cmp_prefix(be_bytes(xh, (n - 1) as nat), xtail, ytail);
        assert(x % 256 < y % 256);
        assert(lex_cmp(xtail, ytail) == Ordering::Less);
    } else {
        lemma_be_bytes_mono(xh, yh, (n - 1) as nat);
        assert(!is_prefix(be_bytes(xh, (n - 1) as nat), be_bytes(yh, (n - 1) as nat))) by {
            lemma_lex_cmp_equal(be_bytes(xh, (n - 1) as nat), be_bytes(yh, (n - 1) as nat));
            assert(be_bytes(yh, (n - 1) as nat).take((n - 1) as int) =~= be_bytes(
                yh,
                (n - 1) as nat,
            ));
        }
        lemma_lex_cmp_strict_concat(
            be_bytes(xh, (n - 1) as nat),
            be_bytes(yh, (n - 1) as nat),
            xtail,
            ytail,
        );
    }
}

pub proof fn lemma_head_len(major: nat, arg: nat)
    ensures
        head(major, arg).len() >= 1,
        head(major, arg).len() == if arg < 24 {
            1int
        } else if arg < 0x100 {
            2int
        } else if arg < 0x10000 {
            3int
        } else if arg < 0x100000000 {
            5int
        } else {
            9int
        },
{
    if arg >= 24 {
        if arg < 0x100 {
            lemma_be_bytes_len(arg, 1);
        } else if arg < 0x10000 {
            lemma_be_bytes_len(arg, 2);
        } else if arg < 0x100000000 {
            lemma_be_bytes_len(arg, 4);
        } else {
            lemma_be_bytes_len(arg, 8);
        }
    }
}

/// The first byte of a head encodes the major type in its top three bits.
pub proof fn lemma_head_first(major: nat, arg: nat)
    requires
        major < 8,
    ensures
        head(major, arg).len() >= 1,
        32 * major <= head(major, arg)[0] < 32 * major + 28,
{
    lemma_head_len(major, arg);
}

/// For one major type, a smaller argument yields a strictly smaller head,
/// and never merely a prefix of the larger one.
pub proof fn lemma_head_mono(major: nat, x: nat, y: nat)
    requires
        major < 8,
        x < y,
        y < 0x10000000000000000,
    ensures
        lex_cmp(head(major, x), head(major, y)) == Ordering::Less,
        !is_prefix(head(major, x), head(major, y)),
{
    let hx = head(major, x);
    let hy = head(major, y);
    lemma_head_len(major, x);
    lemma_head_len(major, y);
    let infox: nat = if x < 24 {
        x
    } else if x < 0x100 {
        24
    } else if x < 0x10000 {
        25
    } else if x < 0x100000000 {
        26
    } else {
        27
    };
    let infoy: nat = if y < 24 {
        y
    } else if y < 0x100 {
        24
    } else if y < 0x10000 {
        25
    } else if y < 0x100000000 {
        26
    } else {
        27
    };
    assert(hx[0] == 32 * major + infox);
    assert(hy[0] == 32 * major + infoy);
    if infox < infoy {
        assert(hx[0] < hy[0]);
        crate::lex::lemma_lex_cmp_first_lt(hx, hy);
    } else {
        assert(infox == infoy);
        if x < 24 {
            assert(hx[0] < hy[0]);
            crate::lex::lemma_lex_cmp_first_lt(hx, hy);
        } else {
            let n: nat = if x < 0x100 {
                1
            } else if x < 0x10000 {
                2
            } else if x < 0x100000000 {
                4
            } else {
                8
            };
            assert(y < pow256(n)) by {
                reveal_with_fuel(pow256, 9);
                assert(pow256(1) == 256);
                assert(pow256(2) == 0x10000);
                assert(pow256(4) == 0x100000000) by {
                    assert(pow256(3) == 0x1000000);
                }
                assert(pow256(8) == 0x10000000000000000) by {
                    assert(pow256(5) == 0x10000000000);
                    assert(pow256(6) == 0x1000000000000);
                    assert(pow256(7) == 0x100000000000000);
                }
            }
            lemma_be_bytes_mono(x, y, n);
            lemma_be_bytes_len(x, n);
            lemma_be_bytes_len(y, n);
            assert(hx =~= seq![(32 * major + infox) as u8] + be_bytes(x, n));
            assert(hy =~= seq![(32 * major + infoy) as u8] + be_bytes(y, n));
            lemma_lex_cmp_prefix(seq![(32 * major + infox) as u8], be_bytes(x, n), be_bytes(y, n));
            assert(!is_prefix(hx, hy)) by {
                lemma_lex_cmp_equal(hx, hy);
                lemma_lex_cmp_equal(be_bytes(x, n), be_bytes(y, n));
                assert(hy.take(hx.len() as int) =~= hy);
            }
        }
    }
    if hx.len() == hy.len() {
        lemma_lex_cmp_equal(hx, hy);
        assert(hy.take(hx.len() as int) =~= hy);
    }
}

/// Equal arguments of one major type give the same head; together with
/// monotonicity this makes head comparison exactly argument comparison.
pub proof fn lemma_head_cmp(major: nat, x: nat, y: nat)
    requires
        major < 8,
        x < 0x10000000000000000,
        y < 0x10000000000000000,
    ensures
        lex_cmp(head(major, x), head(major, y)) == if x < y {
            Ordering::Less
        } else if x == y {
            Ordering::Equal
        } else {
            Ordering::Greater
        },
{
    if x < y {
        lemma_head_mono(major, x, y);
    } else if x == y {
        lemma_lex_cmp_equal(head(major, x), head(major, y));
    } else {
        lemma_head_mono(major, y, x);
        crate::lex::lemma_lex_cmp_flip(head(major, x), head(major, y));
    }
}

} // verus!
