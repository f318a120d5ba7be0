//! A verified in-memory store: a vector of entries kept sorted by key.
//!
//! This store implements the full interface with nothing taken on trust, so
//! it doubles as a reference implementation the harness can run against, and
//! as evidence that the interface's contracts can all be met.

use vstd::prelude::*;

use crate::bytes::{clone_bytes, lemma_seq_dv_push, lex_compare, seq_dv, Cmp};
use crate::model::{
    entries_wf, has_key, key_in_range, key_seq, lemma_insert_at, lemma_insert_spec,
    lemma_lookup_at, lemma_lookup_has_key, lemma_remove_at, lemma_remove_absent,
    lemma_remove_spec, lemma_wf_tail, lookup, value_seq, Entries,
};
use crate::order::{lemma_lex_trichotomy, lex_leq, lex_lt};
use crate::store::{KeyBound, MapStore, OrderedStore};

verus! {

broadcast use crate::bytes::lemma_bytes_deep_view, crate::bytes::lemma_vec_dv;

/// An in-memory store holding its entries sorted by key.
pub struct VecStore {
    items: Vec<(Vec<u8>, Vec<u8>)>,
}

/// The position where `k` belongs: every entry before it has a smaller key.
fn find_pos(items: &Vec<(Vec<u8>, Vec<u8>)>, k: &Vec<u8>) -> (pos: usize)
    ensures
        pos <= items.deep_view().len(),
        forall|j: int| 0 <= j < pos ==> lex_lt(#[trigger] items.deep_view()[j].0, k@),
        pos < items.deep_view().len() ==> !lex_lt(items.deep_view()[pos as int].0, k@),
{
    let n = items.len();
    let mut pos: usize = 0;
    while pos < n
        invariant
            pos <= n,
            n == items.deep_view().len(),
            forall|j: int| 0 <= j < pos ==> lex_lt(#[trigger] items.deep_view()[j].0, k@),
        decreases n - pos,
    {
        match lex_compare(&items[pos].0, k) {
            Cmp::Lt => {
                pos = pos + 1;
            },
            _ => {
                return pos;
            },
        }
    }
    pos
}

/// The index holding `k`, if any entry does.
fn find_key(items: &Vec<(Vec<u8>, Vec<u8>)>, k: &Vec<u8>) -> (r: Option<usize>)
    ensures
        match r {
            Some(i) => i < items.deep_view().len() && items.deep_view()[i as int].0 == k@,
            None => !has_key(items.deep_view(), k@),
        },
{
    let n = items.len();
    let mut i: usize = 0;
    while i < n
        invariant
            i <= n,
            n == items.deep_view().len(),
            forall|j: int| 0 <= j < i ==> #[trigger] items.deep_view()[j].0 != k@,
        decreases n - i,
    {
        match lex_compare(&items[i].0, k) {
            Cmp::Eq => {
                return Some(i);
            },
            _ => {
                i = i + 1;
            },
        }
    }
    proof {
        if has_key(items.deep_view(), k@) {
            let j = choose|j: int|
                0 <= j < items.deep_view().len() && items.deep_view()[j].0 == k@;
            assert(items.deep_view()[j].0 != k@);
        }
    }
    None
}

impl VecStore {
    /// An empty store.
    pub fn new() -> (r: VecStore)
        ensures
            r.inv(),
            r.entries() == Seq::<(Seq<u8>, Seq<u8>)>::empty(),
    {
        let r = VecStore { items: Vec::new() };
        proof {
            assert(r.items.deep_view() =~= Seq::<(Seq<u8>, Seq<u8>)>::empty());
        }
        r
    }
}

impl MapStore for VecStore {
    closed spec fn entries(&self) -> Entries {
        self.items.deep_view()
    }

    closed spec fn inv(&self) -> bool {
        entries_wf(self.items.deep_view())
    }

    proof fn inv_entries_wf(&self) {
    }

    fn insert(&mut self, k: Vec<u8>, v: Vec<u8>) -> (prev: Option<Vec<u8>>) {
        let ghost s = self.items.deep_view();
        let pos = find_pos(&self.items, &k);
        proof {
            lemma_insert_spec(s, k@, v@);
            lemma_insert_at(s, k@, v@, pos as int);
        }
        if pos < self.items.len() {
            match lex_compare(&self.items[pos].0, &k) {
                Cmp::Eq => {
                    let prev = clone_bytes(&self.items[pos].1);
                    self.items.set(pos, (k, v));
                    proof {
                        assert(self.items.deep_view() =~= s.update(pos as int, (k@, v@)));
                        lemma_lookup_at(s, k@, pos as int);
                    }
                    return Some(prev);
                },
                _ => {
                    proof {
                        lemma_key_absent(s, k@, pos as int);
                    }
                    self.items.insert(pos, (k, v));
                    proof {
                        assert(self.items.deep_view() =~= s.insert(pos as int, (k@, v@)));
                    }
                    return None;
                },
            }
        }
        proof {
            lemma_key_absent(s, k@, pos as int);
        }
        self.items.insert(pos, (k, v));
        proof {
            assert(self.items.deep_view() =~= s.insert(pos as int, (k@, v@)));
        }
        None
    }

    fn remove(&mut self, k: &Vec<u8>) -> (prev: Option<Vec<u8>>) {
        let ghost s = self.items.deep_view();
        proof {
            lemma_remove_spec(s, k@);
        }
        match find_key(&self.items, k) {
            Some(i) => {
                proof {
                    lemma_remove_at(s, k@, i as int);
                    lemma_lookup_at(s, k@, i as int);
                }
                let pair = self.items.remove(i);
                proof {
                    assert(self.items.deep_view() =~= s.remove(i as int));
                }
                Some(pair.1)
            },
            None => {
                proof {
                    lemma_remove_absent(s, k@);
                    lemma_lookup_has_key(s, k@);
                }
                None
            },
        }
    }

    fn get(&self, k: &Vec<u8>) -> (r: Option<Vec<u8>>) {
        let ghost s = self.items.deep_view();
        match find_key(&self.items, k) {
            Some(i) => {
                proof {
                    lemma_lookup_at(s, k@, i as int);
                }
                Some(clone_bytes(&self.items[i].1))
            },
            None => {
                proof {
                    lemma_lookup_has_key(s, k@);
                }
                None
            },
        }
    }

    fn contains_key(&self, k: &Vec<u8>) -> (r: bool) {
        let ghost s = self.items.deep_view();
        match find_key(&self.items, k) {
            Some(i) => {
                proof {
                    assert(has_key(s, k@)) by {
                        assert(s[i as int].0 == k@);
                    }
                }
                true
            },
            None => false,
        }
    }

    fn len(&self) -> (n: u64) {
        self.items.len() as u64
    }
}

/// Whether `k` satisfies the lower bound.
fn lo_ok(lo: &KeyBound, k: &Vec<u8>) -> (r: bool)
    ensures
        r == (match lo@ {
            Some(l) => lex_leq(l, k@),
            None => true,
        }),
{
    match lo {
        KeyBound::Unbounded => true,
        KeyBound::Included(l) => {
            proof {
                lemma_lex_trichotomy(l@, k@);
            }
            match lex_compare(l, k) {
                Cmp::Gt => false,
                _ => true,
            }
        },
    }
}

/// Whether `k` satisfies the upper bound.
fn hi_ok(hi: &KeyBound, k: &Vec<u8>) -> (r: bool)
    ensures
        r == (match hi@ {
            Some(h) => lex_leq(k@, h),
            None => true,
        }),
{
    match hi {
        KeyBound::Unbounded => true,
        KeyBound::Included(h) => {
            proof {
                lemma_lex_trichotomy(k@, h@);
            }
            match lex_compare(k, h) {
                Cmp::Gt => false,
                _ => true,
            }
        },
    }
}

impl OrderedStore for VecStore {
    fn pop_first(&mut self) -> (r: Option<(Vec<u8>, Vec<u8>)>) {
        let ghost s = self.items.deep_view();
        if self.items.len() == 0 {
            None
        } else {
            proof {
                lemma_wf_tail(s);
            }
            let pair = self.items.remove(0);
            proof {
                assert(self.items.deep_view() =~= s.skip(1));
            }
            Some(pair)
        }
    }

    fn pop_last(&mut self) -> (r: Option<(Vec<u8>, Vec<u8>)>) {
        let ghost s = self.items.deep_view();
        if self.items.len() == 0 {
            None
        } else {
            let pair = self.items.remove(self.items.len() - 1);
            proof {
                assert(self.items.deep_view() =~= s.drop_last());
                assert(entries_wf(s.drop_last())) by {
                    assert(forall|i: int|
                        0 <= i < s.drop_last().len() ==> #[trigger] s.drop_last()[i] == s[i]);
                }
            }
            Some(pair)
        }
    }

    fn entries_vec(&self) -> (r: Vec<(Vec<u8>, Vec<u8>)>) {
        let ghost s = self.items.deep_view();
        let n = self.items.len();
        let mut out: Vec<(Vec<u8>, Vec<u8>)> = Vec::new();
        proof {
            assert(seq_dv(out@) =~= s.take(0));
        }
        let mut i: usize = 0;
        while i < n
            invariant
                i <= n,
                n == s.len(),
                s == self.items.deep_view(),
                seq_dv(out@) == s.take(i as int),
            decreases n - i,
        {
            let ghost pre = out@;
            let pair = (clone_bytes(&self.items[i].0), clone_bytes(&self.items[i].1));
            let ghost gp = pair;
            proof {
                assert(gp.deep_view() == s[i as int]);
            }
            out.push(pair);
            proof {
                lemma_seq_dv_push(pre, gp);
                assert(seq_dv(out@) == seq_dv(pre).push(gp.deep_view()));
                assert(s.take(i as int).push(s[i as int]) =~= s.take(i + 1));
            }
            i = i + 1;
        }
        proof {
            assert(s.take(n as int) =~= s);
        }
        out
    }

    fn entries_vec_rev(&self) -> (r: Vec<(Vec<u8>, Vec<u8>)>) {
        let ghost s = self.items.deep_view();
        let ghost t = s.reverse();
        let n = self.items.len();
        let mut out: Vec<(Vec<u8>, Vec<u8>)> = Vec::new();
        proof {
            assert(seq_dv(out@) =~= t.take(0));
        }
        let mut i: usize = 0;
        while i < n
            invariant
                i <= n,
                n == s.len(),
                s == self.items.deep_view(),
                t == s.reverse(),
                seq_dv(out@) == t.take(i as int),
            decreases n - i,
        {
            let at = n - 1 - i;
            let ghost pre = out@;
            let pair = (clone_bytes(&self.items[at].0), clone_bytes(&self.items[at].1));
            let ghost gp = pair;
            proof {
                assert(gp.deep_view() == s[at as int]);
                assert(t[i as int] == s[at as int]);
            }
            out.push(pair);
            proof {
                lemma_seq_dv_push(pre, gp);
                assert(seq_dv(out@) == seq_dv(pre).push(gp.deep_view()));
                assert(t.take(i as int).push(t[i as int]) =~= t.take(i + 1));
            }
            i = i + 1;
        }
        proof {
            assert(t.take(n as int) =~= t);
        }
        out
    }

    fn keys_vec(&self) -> (r: Vec<Vec<u8>>) {
        let ghost s = self.items.deep_view();
        let ghost t = key_seq(s);
        let n = self.items.len();
        let mut out: Vec<Vec<u8>> = Vec::new();
        proof {
            assert(seq_dv(out@) =~= t.take(0));
        }
        let mut i: usize = 0;
        while i < n
            invariant
                i <= n,
                n == s.len(),
                s == self.items.deep_view(),
                t == key_seq(s),
                seq_dv(out@) == t.take(i as int),
            decreases n - i,
        {
            let ghost pre = out@;
            let k = clone_bytes(&self.items[i].0);
            let ghost gk = k;
            proof {
                assert(gk.deep_view() == s[i as int].0);
                assert(t[i as int] == s[i as int].0);
            }
            out.push(k);
            proof {
                lemma_seq_dv_push(pre, gk);
                assert(seq_dv(out@) == seq_dv(pre).push(gk.deep_view()));
                assert(t.take(i as int).push(t[i as int]) =~= t.take(i + 1));
            }
            i = i + 1;
        }
        proof {
            assert(t.take(n as int) =~= t);
        }
        out
    }

    fn keys_vec_rev(&self) -> (r: Vec<Vec<u8>>) {
        let ghost s = self.items.deep_view();
        let ghost t = key_seq(s).reverse();
        let n = self.items.len();
        let mut out: Vec<Vec<u8>> = Vec::new();
        proof {
            assert(seq_dv(out@) =~= t.take(0));
        }
        let mut i: usize = 0;
        while i < n
            invariant
                i <= n,
                n == s.len(),
                s == self.items.deep_view(),
                t == key_seq(s).reverse(),
                seq_dv(out@) == t.take(i as int),
            decreases n - i,
        {
            let at = n - 1 - i;
            let ghost pre = out@;
            let k = clone_bytes(&self.items[at].0);
            let ghost gk = k;
            proof {
                assert(gk.deep_view() == s[at as int].0);
                assert(t[i as int] == key_seq(s)[at as int]);
                assert(key_seq(s)[at as int] == s[at as int].0);
            }
            out.push(k);
            proof {
                lemma_seq_dv_push(pre, gk);
                assert(seq_dv(out@) == seq_dv(pre).push(gk.deep_view()));
                assert(t.take(i as int).push(t[i as int]) =~= t.take(i + 1));
            }
            i = i + 1;
        }
        proof {
            assert(t.take(n as int) =~= t);
        }
        out
    }

    fn values_vec(&self) -> (r: Vec<Vec<u8>>) {
        let ghost s = self.items.deep_view();
        let ghost t = value_seq(s);
        let n = self.items.len();
        let mut out: Vec<Vec<u8>> = Vec::new();
        proof {
            assert(seq_dv(out@) =~= t.take(0));
        }
        let mut i: usize = 0;
        while i < n
            invariant
                i <= n,
                n == s.len(),
                s == self.items.deep_view(),
                t == value_seq(s),
                seq_dv(out@) == t.take(i as int),
            decreases n - i,
        {
            let ghost pre = out@;
            let v = clone_bytes(&self.items[i].1);
            let ghost gv = v;
            proof {
                assert(gv.deep_view() == s[i as int].1);
                assert(t[i as int] == s[i as int].1);
            }
            out.push(v);
            proof {
                lemma_seq_dv_push(pre, gv);
                assert(seq_dv(out@) == seq_dv(pre).push(gv.deep_view()));
                assert(t.take(i as int).push(t[i as int]) =~= t.take(i + 1));
            }
            i = i + 1;
        }
        proof {
            assert(t.take(n as int) =~= t);
        }
        out
    }

    fn values_vec_rev(&self) -> (r: Vec<Vec<u8>>) {
        let ghost s = self.items.deep_view();
        let ghost t = value_seq(s).reverse();
        let n = self.items.len();
        let mut out: Vec<Vec<u8>> = Vec::new();
        proof {
            assert(seq_dv(out@) =~= t.take(0));
        }
        let mut i: usize = 0;
        while i < n
            invariant
                i <= n,
                n == s.len(),
                s == self.items.deep_view(),
                t == value_seq(s).reverse(),
                seq_dv(out@) == t.take(i as int),
            decreases n - i,
        {
            let at = n - 1 - i;
            let ghost pre = out@;
            let v = clone_bytes(&self.items[at].1);
            let ghost gv = v;
            proof {
                assert(gv.deep_view() == s[at as int].1);
                assert(t[i as int] == value_seq(s)[at as int]);
                assert(value_seq(s)[at as int] == s[at as int].1);
            }
            out.push(v);
            proof {
                lemma_seq_dv_push(pre, gv);
                assert(seq_dv(out@) == seq_dv(pre).push(gv.deep_view()));
                assert(t.take(i as int).push(t[i as int]) =~= t.take(i + 1));
            }
            i = i + 1;
        }
        proof {
            assert(t.take(n as int) =~= t);
        }
        out
    }

    fn range_vec(&self, lo: &KeyBound, hi: &KeyBound) -> (r: Vec<(Vec<u8>, Vec<u8>)>) {
        let ghost s = self.items.deep_view();
        let ghost pred = |p: (Seq<u8>, Seq<u8>)| key_in_range(p.0, lo@, hi@);
        let n = self.items.len();
        let mut out: Vec<(Vec<u8>, Vec<u8>)> = Vec::new();
        proof {
            reveal(Seq::filter);
            assert(seq_dv(out@) =~= s.take(0).filter(pred));
        }
        let mut i: usize = 0;
        while i < n
            invariant
                i <= n,
                n == s.len(),
                s == self.items.deep_view(),
                pred == (|p: (Seq<u8>, Seq<u8>)| key_in_range(p.0, lo@, hi@)),
                seq_dv(out@) == s.take(i as int).filter(pred),
            decreases n - i,
        {
            proof {
                assert(s.take(i as int).push(s[i as int]) =~= s.take(i + 1));
                crate::model::lemma_filter_push(s.take(i as int), s[i as int], pred);
            }
            let keep = lo_ok(lo, &self.items[i].0) && hi_ok(hi, &self.items[i].0);
            if keep {
                let ghost pre = out@;
                let pair = (clone_bytes(&self.items[i].0), clone_bytes(&self.items[i].1));
                let ghost gp = pair;
                proof {
                    assert(gp.deep_view() == s[i as int]);
                    assert(pred(s[i as int]));
                }
                out.push(pair);
                proof {
                    lemma_seq_dv_push(pre, gp);
                    assert(seq_dv(out@) == seq_dv(pre).push(gp.deep_view()));
                }
            } else {
                proof {
                    assert(!pred(s[i as int]));
                }
            }
            i = i + 1;
        }
        proof {
            assert(s.take(n as int) =~= s);
        }
        out
    }
}

/// When every key before `pos` is below `k` and the key at `pos` (if any) is
/// above it, `k` is absent.
proof fn lemma_key_absent(s: Entries, k: Seq<u8>, pos: int)
    requires
        entries_wf(s),
        0 <= pos <= s.len(),
        forall|j: int| 0 <= j < pos ==> lex_lt(#[trigger] s[j].0, k),
        pos < s.len() ==> !lex_lt(s[pos].0, k),
        pos < s.len() ==> s[pos].0 != k,
    ensures
        !has_key(s, k),
        lookup(s, k) is None,
{
    assert forall|j: int| 0 <= j < s.len() implies #[trigger] s[j].0 != k by {
        if j < pos {
            lemma_lex_trichotomy(s[j].0, k);
        } else if j > pos {
            lemma_lex_trichotomy(s[pos].0, k);
            assert(lex_lt(k, s[pos].0));
            assert(lex_lt(s[pos].0, s[j].0));
            crate::order::lemma_lex_transitive(k, s[pos].0, s[j].0);
            lemma_lex_trichotomy(k, s[j].0);
        } else {
        }
    }
    if has_key(s, k) {
        let j = choose|j: int| 0 <= j < s.len() && s[j].0 == k;
        assert(s[j].0 != k);
    }
    lemma_lookup_has_key(s, k);
}

} // verus!
