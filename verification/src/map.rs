//! Canonically sorted map storage.
//!
//! A map value keeps its entries as a list sorted strictly by key in the
//! canonical order, so iteration order, and therefore the serialized form,
//! never depends on insertion order.  [`map_insert`] places an entry at its
//! canonical position and overwrites an entry with an equal key;
//! [`map_get`] finds the entry an equal key stored, and [`map_remove`]
//! takes it out; [`map_from_entries`] builds a canonical map from entries
//! in any order, later entries winning.

use vstd::prelude::*;

verus! {

use core::cmp::Ordering;
use crate::compare::{canonical_cmp, compare};
use crate::value::{serializable, Value};

/// The keys are strictly increasing in the canonical order: sorted, with no
/// duplicates, since equal keys compare `Equal`, never `Less`.
pub open spec fn entries_sorted(s: Seq<(Value, Value)>) -> bool {
    forall|i: int, j: int|
        #![trigger s[i], s[j]]
        0 <= i < j < s.len() ==> canonical_cmp(s[i].0, s[j].0) == Ordering::Less
}

/// Every key in the entry list is serializable, so every key can be
/// compared against any other serializable key.
pub open spec fn keys_serializable(s: Seq<(Value, Value)>) -> bool {
    forall|i: int| #![trigger s[i]] 0 <= i < s.len() ==> serializable(s[i].0)
}

/// The entry is one of those in the list.
pub open spec fn entry_in(s: Seq<(Value, Value)>, e: (Value, Value)) -> bool {
    exists|i: int| 0 <= i < s.len() && s[i] == e
}

/// Where an entry list sorted in canonical order takes a new entry: before
/// the first key above the new key, in place of an equal key, after all
/// smaller keys.
pub open spec fn map_insert_spec(s: Seq<(Value, Value)>, k: Value, v: Value) -> Seq<
    (Value, Value),
>
    decreases s.len(),
{
    if s.len() == 0 {
        seq![(k, v)]
    } else if canonical_cmp(k, s[0].0) == Ordering::Less {
        seq![(k, v)] + s
    } else if canonical_cmp(k, s[0].0) == Ordering::Equal {
        seq![(k, v)] + s.drop_first()
    } else {
        seq![s[0]] + map_insert_spec(s.drop_first(), k, v)
    }
}

/// The value stored under the first key comparing `Equal` to the one
/// sought, if any.
pub open spec fn map_lookup(s: Seq<(Value, Value)>, k: Value) -> Option<Value>
    decreases s.len(),
{
    if s.len() == 0 {
        None
    } else if canonical_cmp(k, s[0].0) == Ordering::Equal {
        Some(s[0].1)
    } else {
        map_lookup(s.drop_first(), k)
    }
}

/// The entry list with the first entry whose key compares `Equal` to the
/// one given taken out; unchanged when no key matches.
pub open spec fn map_remove_spec(s: Seq<(Value, Value)>, k: Value) -> Seq<(Value, Value)>
    decreases s.len(),
{
    if s.len() == 0 {
        s
    } else if canonical_cmp(k, s[0].0) == Ordering::Equal {
        s.drop_first()
    } else {
        seq![s[0]] + map_remove_spec(s.drop_first(), k)
    }
}

/// The canonical entry list built by inserting the given entries in order,
/// starting from an empty map, so a later entry overwrites an earlier one
/// with an equal key.
pub open spec fn canonical_entries_of(s: Seq<(Value, Value)>) -> Seq<(Value, Value)>
    decreases s.len(),
{
    if s.len() == 0 {
        Seq::empty()
    } else {
        map_insert_spec(canonical_entries_of(s.drop_last()), s.last().0, s.last().1)
    }
}

/// Inserting into a sorted entry list keeps it sorted, and every entry of
/// the result is the new entry or one of the old ones.
pub proof fn lemma_insert_sorted(s: Seq<(Value, Value)>, k: Value, v: Value)
    requires
        entries_sorted(s),
    ensures
        entries_sorted(map_insert_spec(s, k, v)),
        forall|j: int|
            0 <= j < map_insert_spec(s, k, v).len() ==> (#[trigger] map_insert_spec(s, k, v)[j]
                == (k, v) || entry_in(s, map_insert_spec(s, k, v)[j])),
    decreases s.len(),
{
    let t = map_insert_spec(s, k, v);
    if s.len() == 0 {
    } else if canonical_cmp(k, s[0].0) == Ordering::Less {
        assert forall|i: int, j: int| 0 <= i < j < t.len() implies canonical_cmp(
            (#[trigger] t[i]).0,
            (#[trigger] t[j]).0,
        ) == Ordering::Less by {
            if i == 0 {
                assert(t[j] == s[j - 1]);
                if j > 1 {
                    assert(canonical_cmp(s[0].0, s[j - 1].0) == Ordering::Less);
                    crate::laws::lemma_compare_transitive(k, s[0].0, s[j - 1].0);
                }
            } else {
                assert(t[i] == s[i - 1] && t[j] == s[j - 1]);
            }
        }
        assert forall|j: int| 0 <= j < t.len() implies (#[trigger] t[j]) == (k, v) || entry_in(
            s,
            t[j],
        ) by {
            if j > 0 {
                assert(t[j] == s[j - 1]);
            }
        }
    } else if canonical_cmp(k, s[0].0) == Ordering::Equal {
        assert forall|i: int, j: int| 0 <= i < j < t.len() implies canonical_cmp(
            (#[trigger] t[i]).0,
            (#[trigger] t[j]).0,
        ) == Ordering::Less by {
            if i == 0 {
                assert(t[j] == s[j]);
                assert(canonical_cmp(s[0].0, s[j].0) == Ordering::Less);
                crate::laws::lemma_compare_equal_consistent(k, s[0].0, s[j].0);
            } else {
                assert(t[i] == s[i] && t[j] == s[j]);
            }
        }
        assert forall|j: int| 0 <= j < t.len() implies (#[trigger] t[j]) == (k, v) || entry_in(
            s,
            t[j],
        ) by {
            if j > 0 {
                assert(t[j] == s[j]);
            }
        }
    } else {
        let s1 = s.drop_first();
        let t1 = map_insert_spec(s1, k, v);
        assert(entries_sorted(s1)) by {
            assert forall|i: int, j: int| 0 <= i < j < s1.len() implies canonical_cmp(
                (#[trigger] s1[i]).0,
                (#[trigger] s1[j]).0,
            ) == Ordering::Less by {
                assert(s1[i] == s[i + 1] && s1[j] == s[j + 1]);
            }
        }
        lemma_insert_sorted(s1, k, v);
        assert forall|i: int, j: int| 0 <= i < j < t.len() implies canonical_cmp(
            (#[trigger] t[i]).0,
            (#[trigger] t[j]).0,
        ) == Ordering::Less by {
            if i == 0 {
                assert(t[j] == t1[j - 1]);
                if t1[j - 1] == (k, v) {
                    crate::laws::lemma_compare_antisymmetric(k, s[0].0);
                } else {
                    assert(entry_in(s1, t1[j - 1]));
                    let w = choose|w: int| 0 <= w < s1.len() && s1[w] == t1[j - 1];
                    assert(s1[w] == s[w + 1]);
                    assert(canonical_cmp(s[0].0, s[w + 1].0) == Ordering::Less);
                }
            } else {
                assert(t[i] == t1[i - 1] && t[j] == t1[j - 1]);
            }
        }
        assert forall|j: int| 0 <= j < t.len() implies (#[trigger] t[j]) == (k, v) || entry_in(
            s,
            t[j],
        ) by {
            if j == 0 {
                assert(s[0] == t[0]);
                assert(entry_in(s, t[0]));
            } else {
                assert(t[j] == t1[j - 1]);
                if t1[j - 1] != (k, v) {
                    assert(entry_in(s1, t1[j - 1]));
                    let w = choose|w: int| 0 <= w < s1.len() && s1[w] == t1[j - 1];
                    assert(s[w + 1] == t[j]);
                    assert(entry_in(s, t[j]));
                }
            }
        }
    }
}

/// What the insertion spec yields once the scan has passed every smaller
/// key: an append at the end, a replacement of an equal key, or an
/// insertion just before the first larger key.
proof fn lemma_insert_spec_at(s: Seq<(Value, Value)>, k: Value, v: Value, i: int)
    requires
        0 <= i <= s.len(),
        forall|j: int| #![trigger s[j]] 0 <= j < i ==> canonical_cmp(k, s[j].0) == Ordering::Greater,
    ensures
        i == s.len() ==> map_insert_spec(s, k, v) == s.push((k, v)),
        i < s.len() && canonical_cmp(k, s[i].0) == Ordering::Less ==> map_insert_spec(s, k, v)
            == s.take(i) + seq![(k, v)] + s.skip(i),
        i < s.len() && canonical_cmp(k, s[i].0) == Ordering::Equal ==> map_insert_spec(s, k, v)
            == s.take(i) + seq![(k, v)] + s.skip(i + 1),
    decreases i,
{
    if i == 0 {
        if 0 == s.len() {
            assert(map_insert_spec(s, k, v) =~= s.push((k, v)));
        } else if canonical_cmp(k, s[0].0) == Ordering::Less {
            assert(map_insert_spec(s, k, v) =~= s.take(0) + seq![(k, v)] + s.skip(0));
        } else if canonical_cmp(k, s[0].0) == Ordering::Equal {
            assert(map_insert_spec(s, k, v) =~= s.take(0) + seq![(k, v)] + s.skip(1));
        }
    } else {
        let s1 = s.drop_first();
        assert(canonical_cmp(k, s[0].0) == Ordering::Greater);
        assert forall|j: int| #![trigger s1[j]] 0 <= j < i - 1 implies canonical_cmp(k, s1[j].0)
            == Ordering::Greater by {
            assert(s1[j] == s[j + 1]);
        }
        lemma_insert_spec_at(s1, k, v, i - 1);
        assert(map_insert_spec(s, k, v) == seq![s[0]] + map_insert_spec(s1, k, v));
        if i == s.len() {
            assert(map_insert_spec(s1, k, v) == s1.push((k, v)));
            assert(map_insert_spec(s, k, v) =~= s.push((k, v)));
        } else {
            assert(s1[i - 1] == s[i]);
            if canonical_cmp(k, s[i].0) == Ordering::Less {
                assert(map_insert_spec(s1, k, v) == s1.take(i - 1) + seq![(k, v)] + s1.skip(i - 1));
                assert(map_insert_spec(s, k, v) =~= s.take(i) + seq![(k, v)] + s.skip(i));
            } else if canonical_cmp(k, s[i].0) == Ordering::Equal {
                assert(map_insert_spec(s1, k, v) == s1.take(i - 1) + seq![(k, v)] + s1.skip(i));
                assert(map_insert_spec(s, k, v) =~= s.take(i) + seq![(k, v)] + s.skip(i + 1));
            }
        }
    }
}

/// Inserts an entry at its canonical position.
///
/// All smaller keys stay before it, all larger keys after it, and an entry
/// with an equal key is overwritten, following standard mapping semantics.
/// A sorted entry list stays sorted, so insertion order never shows.
#[verifier::rlimit(50)]
pub fn map_insert(entries: &mut Vec<(Value, Value)>, key: Value, value: Value)
    requires
        keys_serializable(old(entries)@),
        serializable(key),
    ensures
        final(entries)@ == map_insert_spec(old(entries)@, key, value),
        keys_serializable(final(entries)@),
        entries_sorted(old(entries)@) ==> entries_sorted(final(entries)@),
{
    let ghost s = entries@;
    let n = entries.len();
    let mut i: usize = 0;
    while i < n
        invariant
            0 <= i <= n,
            n == s.len(),
            s == old(entries)@,
            entries@ == s,
            keys_serializable(s),
            serializable(key),
            forall|j: int|
                #![trigger s[j]]
                0 <= j < i ==> canonical_cmp(key, s[j].0) == Ordering::Greater,
        decreases n - i,
    {
        let c = compare(&key, &entries[i].0);
        match c {
            Ordering::Greater => {
                i = i + 1;
            },
            Ordering::Equal => {
                proof {
                    lemma_insert_spec_at(s, key, value, i as int);
                    if entries_sorted(s) {
                        lemma_insert_sorted(s, key, value);
                    }
                }
                entries[i] = (key, value);
                proof {
                    assert(entries@ =~= s.take(i as int) + seq![(key, value)] + s.skip(
                        i as int + 1,
                    ));
                    assert(keys_serializable(entries@)) by {
                        assert forall|j: int| #![trigger entries@[j]] 0 <= j < entries@.len()
                            implies serializable(entries@[j].0) by {
                            if j != i as int {
                                assert(entries@[j] == s[j]);
                            }
                        }
                    }
                }
                return;
            },
            Ordering::Less => {
                proof {
                    lemma_insert_spec_at(s, key, value, i as int);
                    if entries_sorted(s) {
                        lemma_insert_sorted(s, key, value);
                    }
                }
                entries.insert(i, (key, value));
                proof {
                    assert(entries@ =~= s.take(i as int) + seq![(key, value)] + s.skip(i as int));
                    assert(keys_serializable(entries@)) by {
                        assert forall|j: int| #![trigger entries@[j]] 0 <= j < entries@.len()
                            implies serializable(entries@[j].0) by {
                            if j < i as int {
                                assert(entries@[j] == s[j]);
                            } else if j > i as int {
                                assert(entries@[j] == s[j - 1]);
                            }
                        }
                    }
                }
                return;
            },
        }
    }
    proof {
        lemma_insert_spec_at(s, key, value, n as int);
        if entries_sorted(s) {
            lemma_insert_sorted(s, key, value);
        }
    }
    entries.push((key, value));
    proof {
        assert(keys_serializable(entries@)) by {
            assert forall|j: int| #![trigger entries@[j]] 0 <= j < entries@.len()
                implies serializable(entries@[j].0) by {
                if j < n as int {
                    assert(entries@[j] == s[j]);
                }
            }
        }
    }
}

/// What the removal spec yields once the scan has passed every key that is
/// not the one sought: the list unchanged, or the matching entry cut out.
proof fn lemma_remove_spec_at(s: Seq<(Value, Value)>, k: Value, i: int)
    requires
        0 <= i <= s.len(),
        forall|j: int| #![trigger s[j]] 0 <= j < i ==> canonical_cmp(k, s[j].0) != Ordering::Equal,
    ensures
        i == s.len() ==> map_remove_spec(s, k) == s && map_lookup(s, k) is None,
        i < s.len() && canonical_cmp(k, s[i].0) == Ordering::Equal ==> map_remove_spec(s, k)
            == s.take(i) + s.skip(i + 1) && map_lookup(s, k) == Some(s[i].1),
    decreases i,
{
    if i == 0 {
        if 0 < s.len() && canonical_cmp(k, s[0].0) == Ordering::Equal {
            assert(map_remove_spec(s, k) =~= s.take(0) + s.skip(1));
        }
    } else {
        let s1 = s.drop_first();
        assert forall|j: int| #![trigger s1[j]] 0 <= j < i - 1 implies canonical_cmp(k, s1[j].0)
            != Ordering::Equal by {
            assert(s1[j] == s[j + 1]);
        }
        lemma_remove_spec_at(s1, k, i - 1);
        assert(canonical_cmp(k, s[0].0) != Ordering::Equal);
        assert(map_remove_spec(s, k) == seq![s[0]] + map_remove_spec(s1, k));
        if i == s.len() {
            assert(map_remove_spec(s, k) =~= s);
        } else {
            assert(s1[i - 1] == s[i]);
            if canonical_cmp(k, s[i].0) == Ordering::Equal {
                assert(map_remove_spec(s1, k) == s1.take(i - 1) + s1.skip(i));
                assert(map_remove_spec(s, k) =~= s.take(i) + s.skip(i + 1));
            }
        }
    }
}

/// Cutting one entry out of a sorted entry list keeps it sorted.
proof fn lemma_remove_sorted(s: Seq<(Value, Value)>, i: int)
    requires
        entries_sorted(s),
        0 <= i < s.len(),
    ensures
        entries_sorted(s.take(i) + s.skip(i + 1)),
{
    let t = s.take(i) + s.skip(i + 1);
    assert forall|p: int, q: int| 0 <= p < q < t.len() implies canonical_cmp(
        (#[trigger] t[p]).0,
        (#[trigger] t[q]).0,
    ) == Ordering::Less by {
        let p0: int = if p < i {
            p
        } else {
            p + 1
        };
        let q0: int = if q < i {
            q
        } else {
            q + 1
        };
        assert(t[p] == s[p0] && t[q] == s[q0]);
    }
}

/// The position of the first key comparing `Equal` to the one given, or
/// the length of the list when there is none.
fn map_find(entries: &Vec<(Value, Value)>, key: &Value) -> (r: usize)
    requires
        keys_serializable(entries@),
        serializable(*key),
    ensures
        r <= entries@.len(),
        forall|j: int|
            #![trigger entries@[j]]
            0 <= j < r ==> canonical_cmp(*key, entries@[j].0) != Ordering::Equal,
        r < entries@.len() ==> canonical_cmp(*key, entries@[r as int].0) == Ordering::Equal,
{
    let ghost s = entries@;
    let n = entries.len();
    let mut i: usize = 0;
    while i < n
        invariant
            0 <= i <= n,
            n == s.len(),
            entries@ == s,
            keys_serializable(s),
            serializable(*key),
            forall|j: int|
                #![trigger s[j]]
                0 <= j < i ==> canonical_cmp(*key, s[j].0) != Ordering::Equal,
        decreases n - i,
    {
        let c = compare(key, &entries[i].0);
        match c {
            Ordering::Equal => {
                return i;
            },
            _ => {
                i = i + 1;
            },
        }
    }
    n
}

/// Removes the entry whose key compares `Equal` to the one given, handing
/// back its value; a sorted entry list stays sorted.
pub fn map_remove(entries: &mut Vec<(Value, Value)>, key: &Value) -> (r: Option<Value>)
    requires
        keys_serializable(old(entries)@),
        serializable(*key),
    ensures
        final(entries)@ == map_remove_spec(old(entries)@, *key),
        keys_serializable(final(entries)@),
        entries_sorted(old(entries)@) ==> entries_sorted(final(entries)@),
        match r {
            Some(v) => map_lookup(old(entries)@, *key) == Some(v),
            None => map_lookup(old(entries)@, *key) is None,
        },
{
    let ghost s = entries@;
    let i = map_find(entries, key);
    proof {
        lemma_remove_spec_at(s, *key, i as int);
    }
    if i < entries.len() {
        let e = entries.remove(i);
        proof {
            assert(entries@ =~= s.take(i as int) + s.skip(i as int + 1));
            assert(keys_serializable(entries@)) by {
                assert forall|j: int| #![trigger entries@[j]] 0 <= j < entries@.len()
                    implies serializable(entries@[j].0) by {
                    if j < i as int {
                        assert(entries@[j] == s[j]);
                    } else {
                        assert(entries@[j] == s[j + 1]);
                    }
                }
            }
            if entries_sorted(s) {
                lemma_remove_sorted(s, i as int);
            }
        }
        Some(e.1)
    } else {
        None
    }
}

/// Looks up the value stored under a key comparing `Equal` to the one
/// given, if the list holds one.
pub fn map_get<'a>(entries: &'a Vec<(Value, Value)>, key: &Value) -> (r: Option<&'a Value>)
    requires
        keys_serializable(entries@),
        serializable(*key),
    ensures
        match r {
            Some(v) => map_lookup(entries@, *key) == Some(*v),
            None => map_lookup(entries@, *key) is None,
        },
{
    let ghost s = entries@;
    proof {
        assert(s.skip(0) =~= s);
    }
    let n = entries.len();
    let mut i: usize = 0;
    while i < n
        invariant
            0 <= i <= n,
            n == s.len(),
            entries@ == s,
            keys_serializable(s),
            serializable(*key),
            map_lookup(s, *key) == map_lookup(s.skip(i as int), *key),
        decreases n - i,
    {
        let c = compare(key, &entries[i].0);
        proof {
            assert(s.skip(i as int)[0] == s[i as int]);
        }
        match c {
            Ordering::Equal => {
                return Some(&entries[i].1);
            },
            _ => {
                proof {
                    assert(s.skip(i as int).drop_first() =~= s.skip(i as int + 1));
                }
                i = i + 1;
            },
        }
    }
    proof {
        assert(s.skip(n as int).len() == 0);
    }
    None
}

/// Builds a canonical map value from entries given in any order.
///
/// Each entry is inserted in turn, so the keys come out sorted in the
/// canonical order and, when two entries carry keys comparing `Equal`, the
/// later entry wins.
pub fn map_from_entries(entries: Vec<(Value, Value)>) -> (r: Value)
    requires
        keys_serializable(entries@),
    ensures
        r is Mapping,
        r->Mapping_0@ == canonical_entries_of(entries@),
        entries_sorted(r->Mapping_0@),
        keys_serializable(r->Mapping_0@),
{
    let ghost orig = entries@;
    let mut rest = entries;
    let mut acc: Vec<(Value, Value)> = Vec::new();
    proof {
        assert(orig.take(0) =~= Seq::<(Value, Value)>::empty());
    }
    while rest.len() > 0
        invariant
            rest@ == orig.skip(orig.len() - rest@.len()),
            rest@.len() <= orig.len(),
            keys_serializable(orig),
            acc@ == canonical_entries_of(orig.take(orig.len() - rest@.len())),
            entries_sorted(acc@),
            keys_serializable(acc@),
        decreases rest@.len(),
    {
        let ghost k = orig.len() - rest@.len();
        let (key, value) = rest.remove(0);
        proof {
            assert(rest@ =~= orig.skip(k + 1));
            assert(key == orig[k].0 && value == orig[k].1);
            assert(serializable(key)) by {
                assert(orig[k].0 == key);
            }
            lemma_insert_sorted(acc@, key, value);
        }
        map_insert(&mut acc, key, value);
        proof {
            assert(orig.take(k + 1).drop_last() =~= orig.take(k));
            assert(orig.take(k + 1).last() == orig[k]);
            assert(acc@ == canonical_entries_of(orig.take(k + 1)));
        }
    }
    proof {
        assert(orig.take(orig.len() as int) =~= orig);
    }
    Value::Mapping(acc)
}

} // verus!
