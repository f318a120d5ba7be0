//! The external storage engine's backends.
//!
//! Both backends hold a `BTreeMap<Vec<u8>, Vec<u8>, _>` of the
//! `ic_stable_structures` engine: `DirectMap` over one plain memory region,
//! `MultiMap` over a region leased from the engine's memory manager. The
//! engine's structs take memory types that Verus cannot declare, so each
//! backend hides the engine's map in an opaque struct, and each engine call
//! sits in one trusted `*_raw` method. The names `direct_model` and
//! `multi_model` stand for the contents an engine map holds, as the sequence
//! of entries its ascending iteration yields; `Vec<u8>` keys order
//! lexicographically under the engine's `Ord`, which is the order the model
//! lemmas assume. The store interface is implemented on top of the raw
//! methods in verified code, which also carries the sortedness invariant.
//!
//! Two standing assumptions. The engine's iterators are lazy and carry
//! lifetimes Verus cannot declare, so the traversal and range wrappers drain
//! them into vectors at the boundary; a timed traversal therefore pays for
//! that copy, though what it visits is exactly what the contracts state. And
//! on the canister target `DefaultMemoryImpl` is the one stable memory, so at
//! most one map may be live at a time there — the harness builds one store
//! per scenario and drops it before the next, as the benchmarks always have.

use vstd::prelude::*;

use crate::model::{
    entries_insert, entries_range, entries_remove, entries_wf, has_key, key_seq,
    lemma_insert_spec, lemma_remove_spec, lemma_wf_tail, lookup, value_seq, Entries,
};
use crate::store::{KeyBound, MapStore, OrderedStore};
use std::ops::Bound;

verus! {

/// An engine map over a single plain memory region.
#[verifier::external_body]
pub struct DirectMap {
    inner: ic_stable_structures::BTreeMap<
        Vec<u8>,
        Vec<u8>,
        ic_stable_structures::DefaultMemoryImpl,
    >,
}

/// An engine map over a region leased from the engine's memory manager.
#[verifier::external_body]
pub struct MultiMap {
    inner: ic_stable_structures::BTreeMap<
        Vec<u8>,
        Vec<u8>,
        ic_stable_structures::memory_manager::VirtualMemory<
            ic_stable_structures::DefaultMemoryImpl,
        >,
    >,
}

/// The contents of a direct engine map: the entries its ascending iteration
/// yields.
pub uninterp spec fn direct_model(m: DirectMap) -> Entries;

/// The contents of a manager-backed engine map: the entries its ascending
/// iteration yields.
pub uninterp spec fn multi_model(m: MultiMap) -> Entries;

impl DirectMap {
    /// Relies on `BTreeMap::new` over `DefaultMemoryImpl::default()`: a fresh
    /// map over a fresh memory region is empty.
    #[verifier::external_body]
    pub fn new() -> (r: DirectMap)
        ensures
            direct_model(r) == Seq::<(Seq<u8>, Seq<u8>)>::empty(),
    {
        DirectMap {
            inner: ic_stable_structures::BTreeMap::new(
                ic_stable_structures::DefaultMemoryImpl::default(),
            ),
        }
    }

    /// Relies on `BTreeMap::insert`: stores the value under the key, keeping
    /// key order, and returns the value previously stored there.
    #[verifier::external_body]
    fn insert_raw(&mut self, k: Vec<u8>, v: Vec<u8>) -> (prev: Option<Vec<u8>>)
        ensures
            direct_model(*final(self)) == entries_insert(direct_model(*old(self)), k@, v@),
            match prev {
                Some(p) => lookup(direct_model(*old(self)), k@) == Some(p@),
                None => lookup(direct_model(*old(self)), k@) is None,
            },
    {
        self.inner.insert(k, v)
    }

    /// Relies on `BTreeMap::remove`: takes the entry out and returns its
    /// value.
    #[verifier::external_body]
    fn remove_raw(&mut self, k: &Vec<u8>) -> (prev: Option<Vec<u8>>)
        ensures
            direct_model(*final(self)) == entries_remove(direct_model(*old(self)), k@),
            match prev {
                Some(p) => lookup(direct_model(*old(self)), k@) == Some(p@),
                None => lookup(direct_model(*old(self)), k@) is None,
            },
    {
        self.inner.remove(k)
    }

    /// Relies on `BTreeMap::get`: returns the value stored under the key.
    #[verifier::external_body]
    fn get_raw(&self, k: &Vec<u8>) -> (r: Option<Vec<u8>>)
        ensures
            match r {
                Some(p) => lookup(direct_model(*self), k@) == Some(p@),
                None => lookup(direct_model(*self), k@) is None,
            },
    {
        self.inner.get(k)
    }

    /// Relies on `BTreeMap::contains_key`.
    #[verifier::external_body]
    fn contains_raw(&self, k: &Vec<u8>) -> (r: bool)
        ensures
            r == has_key(direct_model(*self), k@),
    {
        self.inner.contains_key(k)
    }

    /// Relies on `BTreeMap::len`: the number of entries.
    #[verifier::external_body]
    fn len_raw(&self) -> (n: u64)
        ensures
            n == direct_model(*self).len(),
    {
        self.inner.len()
    }

    /// Relies on `BTreeMap::pop_first`: removes and returns the entry with
    /// the smallest key.
    #[verifier::external_body]
    fn pop_first_raw(&mut self) -> (r: Option<(Vec<u8>, Vec<u8>)>)
        ensures
            direct_model(*old(self)).len() == 0 ==> r is None
                && direct_model(*final(self)) == direct_model(*old(self)),
            direct_model(*old(self)).len() > 0 ==> match r {
                Some(p) => (p.0@, p.1@) == direct_model(*old(self))[0]
                    && direct_model(*final(self)) == direct_model(*old(self)).skip(1),
                None => false,
            },
    {
        self.inner.pop_first()
    }

    /// Relies on `BTreeMap::pop_last`: removes and returns the entry with
    /// the greatest key.
    #[verifier::external_body]
    fn pop_last_raw(&mut self) -> (r: Option<(Vec<u8>, Vec<u8>)>)
        ensures
            direct_model(*old(self)).len() == 0 ==> r is None
                && direct_model(*final(self)) == direct_model(*old(self)),
            direct_model(*old(self)).len() > 0 ==> match r {
                Some(p) => (p.0@, p.1@) == direct_model(*old(self)).last()
                    && direct_model(*final(self)) == direct_model(*old(self)).drop_last(),
                None => false,
            },
    {
        self.inner.pop_last()
    }

    /// Relies on `BTreeMap::iter`: every entry in ascending key order.
    #[verifier::external_body]
    fn entries_raw(&self) -> (r: Vec<(Vec<u8>, Vec<u8>)>)
        ensures
            r.deep_view() == direct_model(*self),
    {
        self.inner.iter().map(|e| e.into_pair()).collect()
    }

    /// Relies on `BTreeMap::iter` reversed: every entry in descending key
    /// order.
    #[verifier::external_body]
    fn entries_rev_raw(&self) -> (r: Vec<(Vec<u8>, Vec<u8>)>)
        ensures
            r.deep_view() == direct_model(*self).reverse(),
    {
        self.inner.iter().rev().map(|e| e.into_pair()).collect()
    }

    /// Relies on `BTreeMap::keys`: every key in ascending order.
    #[verifier::external_body]
    fn keys_raw(&self) -> (r: Vec<Vec<u8>>)
        ensures
            r.deep_view() == key_seq(direct_model(*self)),
    {
        self.inner.keys().collect()
    }

    /// Relies on `BTreeMap::keys` reversed: every key in descending order.
    #[verifier::external_body]
    fn keys_rev_raw(&self) -> (r: Vec<Vec<u8>>)
        ensures
            r.deep_view() == key_seq(direct_model(*self)).reverse(),
    {
        self.inner.keys().rev().collect()
    }

    /// Relies on `BTreeMap::values`: every value in ascending key order.
    #[verifier::external_body]
    fn values_raw(&self) -> (r: Vec<Vec<u8>>)
        ensures
            r.deep_view() == value_seq(direct_model(*self)),
    {
        self.inner.values().collect()
    }

    /// Relies on `BTreeMap::values` reversed: every value in descending key
    /// order.
    #[verifier::external_body]
    fn values_rev_raw(&self) -> (r: Vec<Vec<u8>>)
        ensures
            r.deep_view() == value_seq(direct_model(*self)).reverse(),
    {
        self.inner.values().rev().collect()
    }

    /// Relies on `BTreeMap::range` with inclusive bounds: the entries whose
    /// keys lie within the bounds, in ascending key order.
    #[verifier::external_body]
    fn range_raw(&self, lo: &KeyBound, hi: &KeyBound) -> (r: Vec<(Vec<u8>, Vec<u8>)>)
        ensures
            r.deep_view() == entries_range(direct_model(*self), lo@, hi@),
    {
        let lob = match lo {
            KeyBound::Unbounded => Bound::Unbounded,
            KeyBound::Included(k) => Bound::Included(k.clone()),
        };
        let hib = match hi {
            KeyBound::Unbounded => Bound::Unbounded,
            KeyBound::Included(k) => Bound::Included(k.clone()),
        };
        self.inner.range((lob, hib)).map(|e| e.into_pair()).collect()
    }
}

impl MultiMap {
    /// Relies on `MemoryManager::init` over `DefaultMemoryImpl::default()`
    /// and `MemoryManager::get`: a fresh map over a freshly leased virtual
    /// region is empty. The manager reserves the greatest identifier for its
    /// own unallocated-bucket marker and `MemoryId::new` panics on it, so the
    /// region identifier must stay below it.
    #[verifier::external_body]
    pub fn new(region: u8) -> (r: MultiMap)
        requires
            region < 255,
        ensures
            multi_model(r) == Seq::<(Seq<u8>, Seq<u8>)>::empty(),
    {
        let manager = ic_stable_structures::memory_manager::MemoryManager::init(
            ic_stable_structures::DefaultMemoryImpl::default(),
        );
        let memory = manager.get(ic_stable_structures::memory_manager::MemoryId::new(region));
        MultiMap { inner: ic_stable_structures::BTreeMap::new(memory) }
    }

    /// Relies on `BTreeMap::insert`: stores the value under the key, keeping
    /// key order, and returns the value previously stored there.
    #[verifier::external_body]
    fn insert_raw(&mut self, k: Vec<u8>, v: Vec<u8>) -> (prev: Option<Vec<u8>>)
        ensures
            multi_model(*final(self)) == entries_insert(multi_model(*old(self)), k@, v@),
            match prev {
                Some(p) => lookup(multi_model(*old(self)), k@) == Some(p@),
                None => lookup(multi_model(*old(self)), k@) is None,
            },
    {
        self.inner.insert(k, v)
    }

    /// Relies on `BTreeMap::remove`: takes the entry out and returns its
    /// value.
    #[verifier::external_body]
    fn remove_raw(&mut self, k: &Vec<u8>) -> (prev: Option<Vec<u8>>)
        ensures
            multi_model(*final(self)) == entries_remove(multi_model(*old(self)), k@),
            match prev {
                Some(p) => lookup(multi_model(*old(self)), k@) == Some(p@),
                None => lookup(multi_model(*old(self)), k@) is None,
            },
    {
        self.inner.remove(k)
    }

    /// Relies on `BTreeMap::get`: returns the value stored under the key.
    #[verifier::external_body]
    fn get_raw(&self, k: &Vec<u8>) -> (r: Option<Vec<u8>>)
        ensures
            match r {
                Some(p) => lookup(multi_model(*self), k@) == Some(p@),
                None => lookup(multi_model(*self), k@) is None,
            },
    {
        self.inner.get(k)
    }

    /// Relies on `BTreeMap::contains_key`.
    #[verifier::external_body]
    fn contains_raw(&self, k: &Vec<u8>) -> (r: bool)
        ensures
            r == has_key(multi_model(*self), k@),
    {
        self.inner.contains_key(k)
    }

    /// Relies on `BTreeMap::len`: the number of entries.
    #[verifier::external_body]
    fn len_raw(&self) -> (n: u64)
        ensures
            n == multi_model(*self).len(),
    {
        self.inner.len()
    }
}

impl MapStore for DirectMap {
    open spec fn entries(&self) -> Entries {
        direct_model(*self)
    }

    open spec fn inv(&self) -> bool {
        entries_wf(direct_model(*self))
    }

    proof fn inv_entries_wf(&self) {
    }

    fn insert(&mut self, k: Vec<u8>, v: Vec<u8>) -> (prev: Option<Vec<u8>>) {
        proof {
            lemma_insert_spec(direct_model(*self), k@, v@);
        }
        self.insert_raw(k, v)
    }

    fn remove(&mut self, k: &Vec<u8>) -> (prev: Option<Vec<u8>>) {
        proof {
            lemma_remove_spec(direct_model(*self), k@);
        }
        self.remove_raw(k)
    }

    fn get(&self, k: &Vec<u8>) -> (r: Option<Vec<u8>>) {
        self.get_raw(k)
    }

    fn contains_key(&self, k: &Vec<u8>) -> (r: bool) {
        self.contains_raw(k)
    }

    fn len(&self) -> (n: u64) {
        self.len_raw()
    }
}

impl OrderedStore for DirectMap {
    fn pop_first(&mut self) -> (r: Option<(Vec<u8>, Vec<u8>)>) {
        proof {
            if direct_model(*self).len() > 0 {
                lemma_wf_tail(direct_model(*self));
            }
        }
        self.pop_first_raw()
    }

    fn pop_last(&mut self) -> (r: Option<(Vec<u8>, Vec<u8>)>) {
        proof {
            let s = direct_model(*self);
            if s.len() > 0 {
                assert(entries_wf(s.drop_last())) by {
                    assert(forall|i: int|
                        0 <= i < s.drop_last().len() ==> #[trigger] s.drop_last()[i] == s[i]);
                }
            }
        }
        self.pop_last_raw()
    }

    fn entries_vec(&self) -> (r: Vec<(Vec<u8>, Vec<u8>)>) {
        self.entries_raw()
    }

    fn entries_vec_rev(&self) -> (r: Vec<(Vec<u8>, Vec<u8>)>) {
        self.entries_rev_raw()
    }

    fn keys_vec(&self) -> (r: Vec<Vec<u8>>) {
        self.keys_raw()
    }

    fn keys_vec_rev(&self) -> (r: Vec<Vec<u8>>) {
        self.keys_rev_raw()
    }

    fn values_vec(&self) -> (r: Vec<Vec<u8>>) {
        self.values_raw()
    }

    fn values_vec_rev(&self) -> (r: Vec<Vec<u8>>) {
        self.values_rev_raw()
    }

    fn range_vec(&self, lo: &KeyBound, hi: &KeyBound) -> (r: Vec<(Vec<u8>, Vec<u8>)>) {
        self.range_raw(lo, hi)
    }
}

impl MapStore for MultiMap {
    open spec fn entries(&self) -> Entries {
        multi_model(*self)
    }

    open spec fn inv(&self) -> bool {
        entries_wf(multi_model(*self))
    }

    proof fn inv_entries_wf(&self) {
    }

    fn insert(&mut self, k: Vec<u8>, v: Vec<u8>) -> (prev: Option<Vec<u8>>) {
        proof {
            lemma_insert_spec(multi_model(*self), k@, v@);
        }
        self.insert_raw(k, v)
    }

    fn remove(&mut self, k: &Vec<u8>) -> (prev: Option<Vec<u8>>) {
        proof {
            lemma_remove_spec(multi_model(*self), k@);
        }
        self.remove_raw(k)
    }

    fn get(&self, k: &Vec<u8>) -> (r: Option<Vec<u8>>) {
        self.get_raw(k)
    }

    fn contains_key(&self, k: &Vec<u8>) -> (r: bool) {
        self.contains_raw(k)
    }

    fn len(&self) -> (n: u64) {
        self.len_raw()
    }
}

} // verus!
