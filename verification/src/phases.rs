//! The per-scenario execution phases.
//!
//! Each benchmark scenario runs one of these phases against a store: a bulk
//! population, a bulk removal, point queries over a key list, extraction at
//! either end, a full traversal, or a range scan with a reduction. A phase is
//! generic over the store interface, so the same verified code drives the
//! engine's backends and the in-memory store; its contract states exactly
//! what the phase does to the store's contents and what it returns.

use vstd::prelude::*;

use crate::bytes::{be_bytes, be_value, clone_bytes, u64_from_key};
use crate::model::{
    entries_insert, entries_insert_all, entries_range, entries_remove, entries_remove_all,
    has_key, Entries,
};
use crate::store::{KeyBound, MapStore, OrderedStore};

verus! {

broadcast use crate::bytes::lemma_bytes_deep_view, crate::bytes::lemma_vec_dv;

/// How many keys of the list are present in the contents.
pub open spec fn hit_count(s: Entries, ks: Seq<Seq<u8>>) -> nat
    decreases ks.len(),
{
    if ks.len() == 0 {
        0
    } else {
        (if has_key(s, ks[0]) {
            1nat
        } else {
            0
        }) + hit_count(s, ks.skip(1))
    }
}

/// How many removals of the key list, applied in order, find their key.
pub open spec fn removal_count(s: Entries, ks: Seq<Seq<u8>>) -> nat
    decreases ks.len(),
{
    if ks.len() == 0 {
        0
    } else {
        (if has_key(s, ks[0]) {
            1nat
        } else {
            0
        }) + removal_count(entries_remove(s, ks[0]), ks.skip(1))
    }
}

/// Inserts every pair of the workload, in workload order.
pub fn populate<M: MapStore>(m: &mut M, pairs: &Vec<(Vec<u8>, Vec<u8>)>)
    requires
        old(m).inv(),
    ensures
        final(m).inv(),
        final(m).entries() == entries_insert_all(old(m).entries(), pairs.deep_view()),
{
    let ghost s0 = m.entries();
    let ghost ps = pairs.deep_view();
    let n = pairs.len();
    proof {
        assert(ps.skip(0) =~= ps);
    }
    let mut i: usize = 0;
    while i < n
        invariant
            i <= n,
            n == ps.len(),
            ps == pairs.deep_view(),
            m.inv(),
            entries_insert_all(m.entries(), ps.skip(i as int)) == entries_insert_all(s0, ps),
        decreases n - i,
    {
        let k = clone_bytes(&pairs[i].0);
        let v = clone_bytes(&pairs[i].1);
        let ghost before = m.entries();
        proof {
            assert(ps.skip(i as int)[0] == ps[i as int]);
            assert(ps.skip(i as int).skip(1) =~= ps.skip(i + 1));
            assert(k@ == ps[i as int].0);
            assert(v@ == ps[i as int].1);
        }
        m.insert(k, v);
        proof {
            assert(entries_insert_all(before, ps.skip(i as int))
                == entries_insert_all(entries_insert(before, ps[i as int].0, ps[i as int].1),
                    ps.skip(i + 1)));
        }
        i = i + 1;
    }
    proof {
        assert(ps.skip(n as int) =~= Seq::<(Seq<u8>, Seq<u8>)>::empty());
    }
}

/// The pairs a sequential workload holds: the `i`-th payload stored under
/// the big-endian key of `i`.
pub open spec fn sequential_pairs(vals: Seq<Seq<u8>>) -> Entries {
    Seq::new(vals.len(), |i: int| (be_bytes(i as u64), vals[i]))
}

/// Inserts every payload under its index as a big-endian key, in index
/// order.
pub fn populate_sequential<M: MapStore>(m: &mut M, values: &Vec<Vec<u8>>)
    requires
        old(m).inv(),
    ensures
        final(m).inv(),
        final(m).entries() == entries_insert_all(
            old(m).entries(),
            sequential_pairs(values.deep_view()),
        ),
{
    let ghost s0 = m.entries();
    let ghost sp = sequential_pairs(values.deep_view());
    let n = values.len();
    proof {
        assert(sp.skip(0) =~= sp);
    }
    let mut i: usize = 0;
    while i < n
        invariant
            i <= n,
            n == sp.len(),
            sp == sequential_pairs(values.deep_view()),
            m.inv(),
            entries_insert_all(m.entries(), sp.skip(i as int)) == entries_insert_all(s0, sp),
        decreases n - i,
    {
        let k = crate::bytes::u64_key(i as u64);
        let v = clone_bytes(&values[i]);
        let ghost before = m.entries();
        proof {
            assert(sp.skip(i as int)[0] == sp[i as int]);
            assert(sp.skip(i as int).skip(1) =~= sp.skip(i + 1));
            assert(k@ == sp[i as int].0);
            assert(v@ == sp[i as int].1);
        }
        m.insert(k, v);
        proof {
            assert(entries_insert_all(before, sp.skip(i as int))
                == entries_insert_all(entries_insert(before, sp[i as int].0, sp[i as int].1),
                    sp.skip(i + 1)));
        }
        i = i + 1;
    }
    proof {
        assert(sp.skip(n as int) =~= Seq::<(Seq<u8>, Seq<u8>)>::empty());
    }
}

/// Removes every key of the list, in list order; returns how many were
/// found.
pub fn remove_keys<M: MapStore>(m: &mut M, keys: &Vec<Vec<u8>>) -> (found: usize)
    requires
        old(m).inv(),
    ensures
        final(m).inv(),
        final(m).entries() == entries_remove_all(old(m).entries(), keys.deep_view()),
        found == removal_count(old(m).entries(), keys.deep_view()),
{
    let ghost s0 = m.entries();
    let ghost ks = keys.deep_view();
    let n = keys.len();
    proof {
        assert(ks.skip(0) =~= ks);
    }
    let mut found: usize = 0;
    let mut i: usize = 0;
    while i < n
        invariant
            i <= n,
            found <= i,
            n == ks.len(),
            ks == keys.deep_view(),
            m.inv(),
            entries_remove_all(m.entries(), ks.skip(i as int)) == entries_remove_all(s0, ks),
            found + removal_count(m.entries(), ks.skip(i as int)) == removal_count(s0, ks),
        decreases n - i,
    {
        let ghost before = m.entries();
        proof {
            assert(ks.skip(i as int)[0] == ks[i as int]);
            assert(ks.skip(i as int).skip(1) =~= ks.skip(i + 1));
            crate::model::lemma_lookup_has_key(before, ks[i as int]);
        }
        let prev = m.remove(&keys[i]);
        if prev.is_some() {
            found = found + 1;
        }
        i = i + 1;
    }
    proof {
        assert(ks.skip(n as int) =~= Seq::<Seq<u8>>::empty());
    }
    found
}

/// Looks every key of the list up; returns how many are present.
pub fn get_keys<M: MapStore>(m: &M, keys: &Vec<Vec<u8>>) -> (found: usize)
    requires
        m.inv(),
    ensures
        found == hit_count(m.entries(), keys.deep_view()),
{
    let ghost s = m.entries();
    let ghost ks = keys.deep_view();
    let n = keys.len();
    proof {
        assert(ks.skip(0) =~= ks);
    }
    let mut found: usize = 0;
    let mut i: usize = 0;
    while i < n
        invariant
            i <= n,
            found <= i,
            n == ks.len(),
            ks == keys.deep_view(),
            s == m.entries(),
            m.inv(),
            found + hit_count(s, ks.skip(i as int)) == hit_count(s, ks),
        decreases n - i,
    {
        proof {
            assert(ks.skip(i as int)[0] == ks[i as int]);
            assert(ks.skip(i as int).skip(1) =~= ks.skip(i + 1));
            crate::model::lemma_lookup_has_key(s, ks[i as int]);
        }
        let r = m.get(&keys[i]);
        if r.is_some() {
            found = found + 1;
        }
        i = i + 1;
    }
    proof {
        assert(ks.skip(n as int) =~= Seq::<Seq<u8>>::empty());
    }
    found
}

/// Tests every key of the list for membership; returns how many are present.
pub fn contains_keys<M: MapStore>(m: &M, keys: &Vec<Vec<u8>>) -> (found: usize)
    requires
        m.inv(),
    ensures
        found == hit_count(m.entries(), keys.deep_view()),
{
    let ghost s = m.entries();
    let ghost ks = keys.deep_view();
    let n = keys.len();
    proof {
        assert(ks.skip(0) =~= ks);
    }
    let mut found: usize = 0;
    let mut i: usize = 0;
    while i < n
        invariant
            i <= n,
            found <= i,
            n == ks.len(),
            ks == keys.deep_view(),
            s == m.entries(),
            m.inv(),
            found + hit_count(s, ks.skip(i as int)) == hit_count(s, ks),
        decreases n - i,
    {
        proof {
            assert(ks.skip(i as int)[0] == ks[i as int]);
            assert(ks.skip(i as int).skip(1) =~= ks.skip(i + 1));
        }
        let r = m.contains_key(&keys[i]);
        if r {
            found = found + 1;
        }
        i = i + 1;
    }
    proof {
        assert(ks.skip(n as int) =~= Seq::<Seq<u8>>::empty());
    }
    found
}

/// Extracts up to `n` entries at the small end; returns how many came out.
pub fn pop_first_n<M: OrderedStore>(m: &mut M, n: usize) -> (got: usize)
    requires
        old(m).inv(),
    ensures
        final(m).inv(),
        got <= n,
        got <= old(m).entries().len(),
        final(m).entries() == old(m).entries().skip(got as int),
        got == n || got == old(m).entries().len(),
{
    let ghost s0 = m.entries();
    proof {
        assert(s0.skip(0) =~= s0);
    }
    let mut got: usize = 0;
    while got < n
        invariant
            got <= n,
            got <= s0.len(),
            s0 == old(m).entries(),
            m.inv(),
            m.entries() == s0.skip(got as int),
        decreases n - got,
    {
        let ghost before = m.entries();
        match m.pop_first() {
            Some(_) => {
                proof {
                    assert(s0.skip(got as int).skip(1) =~= s0.skip(got + 1));
                }
                got = got + 1;
            },
            None => {
                proof {
                    assert(s0.skip(got as int).len() == 0);
                }
                return got;
            },
        }
    }
    got
}

/// Extracts up to `n` entries at the great end; returns how many came out.
pub fn pop_last_n<M: OrderedStore>(m: &mut M, n: usize) -> (got: usize)
    requires
        old(m).inv(),
    ensures
        final(m).inv(),
        got <= n,
        got <= old(m).entries().len(),
        final(m).entries() == old(m).entries().take(old(m).entries().len() - got),
        got == n || got == old(m).entries().len(),
{
    let ghost s0 = m.entries();
    proof {
        assert(s0.take(s0.len() as int) =~= s0);
    }
    let mut got: usize = 0;
    while got < n
        invariant
            got <= n,
            got <= s0.len(),
            s0 == old(m).entries(),
            m.inv(),
            m.entries() == s0.take(s0.len() - got),
        decreases n - got,
    {
        match m.pop_last() {
            Some(_) => {
                proof {
                    assert(s0.take(s0.len() - got).drop_last() =~= s0.take(s0.len() - (got + 1)));
                }
                got = got + 1;
            },
            None => {
                proof {
                    assert(s0.take(s0.len() - got).len() == 0);
                }
                return got;
            },
        }
    }
    got
}

/// Which ordered walk a traversal scenario makes.
pub enum TraversalMode {
    Entries,
    EntriesRev,
    Keys,
    KeysRev,
    Values,
    ValuesRev,
}

/// Walks the whole store in the given mode, draining the walk; returns how
/// many items it visited.
pub fn traverse<M: OrderedStore>(m: &M, mode: &TraversalMode) -> (visited: usize)
    requires
        m.inv(),
    ensures
        visited == m.entries().len(),
{
    match mode {
        TraversalMode::Entries => {
            let v = m.entries_vec();
            proof {
                assert(v.deep_view().len() == v@.len());
            }
            v.len()
        },
        TraversalMode::EntriesRev => {
            let v = m.entries_vec_rev();
            proof {
                assert(v.deep_view().len() == v@.len());
            }
            v.len()
        },
        TraversalMode::Keys => {
            let v = m.keys_vec();
            proof {
                assert(v.deep_view().len() == v@.len());
            }
            v.len()
        },
        TraversalMode::KeysRev => {
            let v = m.keys_vec_rev();
            proof {
                assert(v.deep_view().len() == v@.len());
            }
            v.len()
        },
        TraversalMode::Values => {
            let v = m.values_vec();
            proof {
                assert(v.deep_view().len() == v@.len());
            }
            v.len()
        },
        TraversalMode::ValuesRev => {
            let v = m.values_vec_rev();
            proof {
                assert(v.deep_view().len() == v@.len());
            }
            v.len()
        },
    }
}

/// How many entries of the store lie within the bounds.
pub fn range_count<M: OrderedStore>(m: &M, lo: &KeyBound, hi: &KeyBound) -> (n: usize)
    requires
        m.inv(),
    ensures
        n == entries_range(m.entries(), lo@, hi@).len(),
{
    let v = m.range_vec(lo, hi);
    proof {
        assert(v.deep_view().len() == v@.len());
    }
    v.len()
}

/// The weight a key contributes to a key sum: its value as an eight-byte
/// big-endian integer, or nothing if it is not eight bytes wide.
pub open spec fn key_weight(k: Seq<u8>) -> nat {
    if k.len() == 8 {
        be_value(k)
    } else {
        0
    }
}

/// The sum of the key weights of the contents.
pub open spec fn key_weight_sum(s: Entries) -> nat
    decreases s.len(),
{
    if s.len() == 0 {
        0
    } else {
        key_weight_sum(s.drop_last()) + key_weight(s.last().0)
    }
}

/// What an entry contributes to a filtered value sum: its value's length,
/// for entries whose eight-byte key is divisible by three.
pub open spec fn value_weight(p: (Seq<u8>, Seq<u8>)) -> nat {
    if p.0.len() == 8 && be_value(p.0) % 3 == 0 {
        p.1.len()
    } else {
        0
    }
}

/// The sum of the value weights of the contents.
pub open spec fn value_weight_sum(s: Entries) -> nat
    decreases s.len(),
{
    if s.len() == 0 {
        0
    } else {
        value_weight_sum(s.drop_last()) + value_weight(s.last())
    }
}

/// Scans the bounded range and sums the keys, reading each eight-byte key as
/// a big-endian integer.
pub fn range_key_sum<M: OrderedStore>(m: &M, lo: &KeyBound, hi: &KeyBound) -> (sum: u128)
    requires
        m.inv(),
    ensures
        sum == key_weight_sum(entries_range(m.entries(), lo@, hi@)),
{
    let v = m.range_vec(lo, hi);
    let ghost t = v.deep_view();
    let n = v.len();
    let mut sum: u128 = 0;
    let mut i: usize = 0;
    proof {
        assert(t.take(0) =~= Seq::<(Seq<u8>, Seq<u8>)>::empty());
    }
    while i < n
        invariant
            i <= n,
            n == t.len(),
            t == v.deep_view(),
            sum == key_weight_sum(t.take(i as int)),
            sum <= (i as int) * 0xffff_ffff_ffff_ffffu64,
        decreases n - i,
    {
        let w: u64 = if v[i].0.len() == 8 {
            u64_from_key(&v[i].0)
        } else {
            0
        };
        proof {
            assert(w == key_weight(t[i as int].0)) by {
                assert(t[i as int].0 == v@[i as int].0@);
            }
            lemma_weight_step(i as int, sum as int, w as int);
            assert(t.take(i + 1).drop_last() =~= t.take(i as int));
            assert(t.take(i + 1).last() == t[i as int]);
        }
        sum = sum + (w as u128);
        i = i + 1;
    }
    proof {
        assert(t.take(n as int) =~= t);
    }
    sum
}

/// Scans the bounded range and sums the lengths of the values of every entry
/// whose eight-byte key is divisible by three.
pub fn range_value_sum<M: OrderedStore>(m: &M, lo: &KeyBound, hi: &KeyBound) -> (sum: u128)
    requires
        m.inv(),
    ensures
        sum == value_weight_sum(entries_range(m.entries(), lo@, hi@)),
{
    let v = m.range_vec(lo, hi);
    let ghost t = v.deep_view();
    let n = v.len();
    let mut sum: u128 = 0;
    let mut i: usize = 0;
    proof {
        assert(t.take(0) =~= Seq::<(Seq<u8>, Seq<u8>)>::empty());
    }
    while i < n
        invariant
            i <= n,
            n == t.len(),
            t == v.deep_view(),
            sum == value_weight_sum(t.take(i as int)),
            sum <= (i as int) * 0xffff_ffff_ffff_ffffu64,
        decreases n - i,
    {
        let w: u64 = if v[i].0.len() == 8 {
            let x = u64_from_key(&v[i].0);
            if x % 3 == 0 {
                v[i].1.len() as u64
            } else {
                0
            }
        } else {
            0
        };
        proof {
            assert(w == value_weight(t[i as int])) by {
                assert(t[i as int].0 == v@[i as int].0@);
                assert(t[i as int].1 == v@[i as int].1@);
            }
            lemma_weight_step(i as int, sum as int, w as int);
            assert(t.take(i + 1).drop_last() =~= t.take(i as int));
            assert(t.take(i + 1).last() == t[i as int]);
        }
        sum = sum + (w as u128);
        i = i + 1;
    }
    proof {
        assert(t.take(n as int) =~= t);
    }
    sum
}

/// One step of a bounded sum stays bounded: adding a word-sized weight to a
/// sum of `i` word-sized weights keeps it under `i + 1` of them, and within
/// twice-word range.
proof fn lemma_weight_step(i: int, sum: int, w: int)
    requires
        0 <= i < 0x1_0000_0000_0000_0000,
        0 <= sum <= i * 0xffff_ffff_ffff_ffff,
        0 <= w <= 0xffff_ffff_ffff_ffff,
    ensures
        sum + w <= (i + 1) * 0xffff_ffff_ffff_ffff,
        sum + w <= 0xffff_ffff_ffff_ffff_ffff_ffff_ffff_ffff,
{
    assert((i + 1) * 0xffff_ffff_ffff_ffff == i * 0xffff_ffff_ffff_ffff + 0xffff_ffff_ffff_ffff)
        by (nonlinear_arith);
    assert((i + 1) * 0xffff_ffff_ffff_ffff
        <= 0x1_0000_0000_0000_0000 * 0xffff_ffff_ffff_ffff) by (nonlinear_arith)
        requires
            i + 1 <= 0x1_0000_0000_0000_0000,
    ;
}

} // verus!
