//! The interface of an ordered byte-string store.
//!
//! The harness reaches every store through these traits, so the same phase
//! functions and proofs apply to the external engine's backends and to the
//! crate's own verified in-memory store alike. Every method's effect is
//! stated against the sorted-sequence model of `crate::model`.

use vstd::prelude::*;

use crate::model::{
    entries_insert, entries_range, entries_remove, entries_wf, has_key, key_seq, lookup,
    value_seq, Entries,
};

verus! {

/// One side of a key range: unbounded, or closed at a key.
pub enum KeyBound {
    Unbounded,
    Included(Vec<u8>),
}

impl View for KeyBound {
    type V = Option<Seq<u8>>;

    open spec fn view(&self) -> Option<Seq<u8>> {
        match self {
            KeyBound::Unbounded => None,
            KeyBound::Included(k) => Some(k@),
        }
    }
}

/// The point operations of an ordered store.
///
/// `entries()` is the store's contents as a key-sorted sequence of pairs of
/// byte strings; each operation says exactly what it does to that sequence.
pub trait MapStore: Sized {
    /// The contents, as a sequence of (key, value) pairs sorted by key.
    spec fn entries(&self) -> Entries;

    /// The store's internal invariant; every operation keeps it.
    spec fn inv(&self) -> bool;

    /// The invariant keeps the contents sorted by key.
    proof fn inv_entries_wf(&self)
        requires
            self.inv(),
        ensures
            entries_wf(self.entries()),
    ;

    /// Stores `v` under `k`, returning the value previously stored there.
    fn insert(&mut self, k: Vec<u8>, v: Vec<u8>) -> (prev: Option<Vec<u8>>)
        requires
            old(self).inv(),
        ensures
            final(self).inv(),
            final(self).entries() == entries_insert(old(self).entries(), k@, v@),
            match prev {
                Some(p) => lookup(old(self).entries(), k@) == Some(p@),
                None => lookup(old(self).entries(), k@) is None,
            },
    ;

    /// Removes the entry stored under `k`, returning its value.
    fn remove(&mut self, k: &Vec<u8>) -> (prev: Option<Vec<u8>>)
        requires
            old(self).inv(),
        ensures
            final(self).inv(),
            final(self).entries() == entries_remove(old(self).entries(), k@),
            match prev {
                Some(p) => lookup(old(self).entries(), k@) == Some(p@),
                None => lookup(old(self).entries(), k@) is None,
            },
    ;

    /// Returns the value stored under `k`.
    fn get(&self, k: &Vec<u8>) -> (r: Option<Vec<u8>>)
        requires
            self.inv(),
        ensures
            match r {
                Some(p) => lookup(self.entries(), k@) == Some(p@),
                None => lookup(self.entries(), k@) is None,
            },
    ;

    /// Whether an entry is stored under `k`.
    fn contains_key(&self, k: &Vec<u8>) -> (r: bool)
        requires
            self.inv(),
        ensures
            r == has_key(self.entries(), k@),
    ;

    /// The number of entries.
    fn len(&self) -> (n: u64)
        requires
            self.inv(),
        ensures
            n == self.entries().len(),
    ;
}

/// The ordered traversals of a store: extraction at either end, full
/// iteration both ways, and range scans.
pub trait OrderedStore: MapStore {
    /// Removes and returns the entry with the smallest key.
    fn pop_first(&mut self) -> (r: Option<(Vec<u8>, Vec<u8>)>)
        requires
            old(self).inv(),
        ensures
            final(self).inv(),
            old(self).entries().len() == 0 ==> r is None
                && final(self).entries() == old(self).entries(),
            old(self).entries().len() > 0 ==> match r {
                Some(p) => (p.0@, p.1@) == old(self).entries()[0]
                    && final(self).entries() == old(self).entries().skip(1),
                None => false,
            },
    ;

    /// Removes and returns the entry with the greatest key.
    fn pop_last(&mut self) -> (r: Option<(Vec<u8>, Vec<u8>)>)
        requires
            old(self).inv(),
        ensures
            final(self).inv(),
            old(self).entries().len() == 0 ==> r is None
                && final(self).entries() == old(self).entries(),
            old(self).entries().len() > 0 ==> match r {
                Some(p) => (p.0@, p.1@) == old(self).entries().last()
                    && final(self).entries() == old(self).entries().drop_last(),
                None => false,
            },
    ;

    /// Every entry, in ascending key order.
    fn entries_vec(&self) -> (r: Vec<(Vec<u8>, Vec<u8>)>)
        requires
            self.inv(),
        ensures
            r.deep_view() == self.entries(),
    ;

    /// Every entry, in descending key order.
    fn entries_vec_rev(&self) -> (r: Vec<(Vec<u8>, Vec<u8>)>)
        requires
            self.inv(),
        ensures
            r.deep_view() == self.entries().reverse(),
    ;

    /// Every key, in ascending order.
    fn keys_vec(&self) -> (r: Vec<Vec<u8>>)
        requires
            self.inv(),
        ensures
            r.deep_view() == key_seq(self.entries()),
    ;

    /// Every key, in descending order.
    fn keys_vec_rev(&self) -> (r: Vec<Vec<u8>>)
        requires
            self.inv(),
        ensures
            r.deep_view() == key_seq(self.entries()).reverse(),
    ;

    /// Every value, in ascending key order.
    fn values_vec(&self) -> (r: Vec<Vec<u8>>)
        requires
            self.inv(),
        ensures
            r.deep_view() == value_seq(self.entries()),
    ;

    /// Every value, in descending key order.
    fn values_vec_rev(&self) -> (r: Vec<Vec<u8>>)
        requires
            self.inv(),
        ensures
            r.deep_view() == value_seq(self.entries()).reverse(),
    ;

    /// The entries whose keys lie within the bounds, in ascending key order.
    fn range_vec(&self, lo: &KeyBound, hi: &KeyBound) -> (r: Vec<(Vec<u8>, Vec<u8>)>)
        requires
            self.inv(),
        ensures
            r.deep_view() == entries_range(self.entries(), lo@, hi@),
    ;
}

} // verus!
