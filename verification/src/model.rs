//! Mathematical model of an ordered byte-string store.
//!
//! The contents of a store are modelled as a sequence of (key, value) pairs of
//! byte strings, sorted strictly by lexicographic key order. The spec
//! functions here say exactly what each store operation does to that sequence,
//! and the lemmas relate them so that callers can reason about whole
//! workloads.

use vstd::prelude::*;

use crate::order::{lex_leq, lex_lt, lemma_lex_transitive, lemma_lex_trichotomy};

verus! {

/// The model of a store's contents: (key, value) pairs of byte strings.
pub type Entries = Seq<(Seq<u8>, Seq<u8>)>;

/// Contents are well formed when keys are strictly increasing, which also
/// makes them pairwise distinct.
pub open spec fn entries_wf(s: Entries) -> bool {
    forall|i: int, j: int|
        #![trigger s[i], s[j]]
        0 <= i < j < s.len() ==> lex_lt(s[i].0, s[j].0)
}

/// Whether some entry carries the key `k`.
pub open spec fn has_key(s: Entries, k: Seq<u8>) -> bool {
    exists|i: int| 0 <= i < s.len() && s[i].0 == k
}

/// The value stored under `k`, scanning front to back.
pub open spec fn lookup(s: Entries, k: Seq<u8>) -> Option<Seq<u8>>
    decreases s.len(),
{
    if s.len() == 0 {
        None
    } else if s[0].0 == k {
        Some(s[0].1)
    } else {
        lookup(s.skip(1), k)
    }
}

/// Contents after storing `v` under `k`: the entry is placed at its ordered
/// position, replacing an existing entry with the same key.
pub open spec fn entries_insert(s: Entries, k: Seq<u8>, v: Seq<u8>) -> Entries
    decreases s.len(),
{
    if s.len() == 0 {
        seq![(k, v)]
    } else if lex_lt(k, s[0].0) {
        seq![(k, v)] + s
    } else if k == s[0].0 {
        seq![(k, v)] + s.skip(1)
    } else {
        seq![s[0]] + entries_insert(s.skip(1), k, v)
    }
}

/// Contents after removing the entry with key `k`, if there is one.
pub open spec fn entries_remove(s: Entries, k: Seq<u8>) -> Entries
    decreases s.len(),
{
    if s.len() == 0 {
        s
    } else if s[0].0 == k {
        s.skip(1)
    } else {
        seq![s[0]] + entries_remove(s.skip(1), k)
    }
}

/// Contents after storing every pair of `pairs` in order.
pub open spec fn entries_insert_all(s: Entries, pairs: Entries) -> Entries
    decreases pairs.len(),
{
    if pairs.len() == 0 {
        s
    } else {
        entries_insert_all(entries_insert(s, pairs[0].0, pairs[0].1), pairs.skip(1))
    }
}

/// Contents after removing every key of `ks` in order.
pub open spec fn entries_remove_all(s: Entries, ks: Seq<Seq<u8>>) -> Entries
    decreases ks.len(),
{
    if ks.len() == 0 {
        s
    } else {
        entries_remove_all(entries_remove(s, ks[0]), ks.skip(1))
    }
}

/// The keys of the contents, in entry order.
pub open spec fn key_seq(s: Entries) -> Seq<Seq<u8>> {
    s.map_values(|p: (Seq<u8>, Seq<u8>)| p.0)
}

/// The values of the contents, in entry order.
pub open spec fn value_seq(s: Entries) -> Seq<Seq<u8>> {
    s.map_values(|p: (Seq<u8>, Seq<u8>)| p.1)
}

/// Whether `k` lies within the inclusive bounds `lo` and `hi`; `None` leaves
/// that side unbounded.
pub open spec fn key_in_range(k: Seq<u8>, lo: Option<Seq<u8>>, hi: Option<Seq<u8>>) -> bool {
    (match lo {
        Some(l) => lex_leq(l, k),
        None => true,
    }) && (match hi {
        Some(h) => lex_leq(k, h),
        None => true,
    })
}

/// The entries whose keys lie within the bounds, keeping their order.
pub open spec fn entries_range(s: Entries, lo: Option<Seq<u8>>, hi: Option<Seq<u8>>) -> Entries {
    s.filter(|p: (Seq<u8>, Seq<u8>)| key_in_range(p.0, lo, hi))
}

/// A scan without bounds keeps every entry.
pub proof fn lemma_range_full(s: Entries)
    ensures
        entries_range(s, None, None) == s,
    decreases s.len(),
{
    reveal(Seq::filter);
    let pred = |p: (Seq<u8>, Seq<u8>)| key_in_range(p.0, None, None);
    if s.len() == 0 {
    } else {
        lemma_range_full(s.drop_last());
        assert(s.filter(pred) == s.drop_last().filter(pred).push(s.last()));
        assert(s.drop_last().push(s.last()) =~= s);
    }
}

/// One step of filtering: appending an entry keeps it exactly when it
/// satisfies the predicate.
pub proof fn lemma_filter_push(
    t: Entries,
    x: (Seq<u8>, Seq<u8>),
    pred: spec_fn((Seq<u8>, Seq<u8>)) -> bool,
)
    ensures
        (t.push(x)).filter(pred) == if pred(x) {
            t.filter(pred).push(x)
        } else {
            t.filter(pred)
        },
{
    reveal(Seq::filter);
    assert((t.push(x)).drop_last() =~= t);
    assert((t.push(x)).last() == x);
}

/// A lookup succeeds exactly on present keys.
pub proof fn lemma_lookup_has_key(s: Entries, k: Seq<u8>)
    ensures
        lookup(s, k) is Some <==> has_key(s, k),
    decreases s.len(),
{
    if s.len() > 0 && s[0].0 != k {
        lemma_lookup_has_key(s.skip(1), k);
        if has_key(s, k) {
            let i = choose|i: int| 0 <= i < s.len() && s[i].0 == k;
            assert(s.skip(1)[i - 1].0 == k);
        }
        if has_key(s.skip(1), k) {
            let i = choose|i: int| 0 <= i < s.skip(1).len() && s.skip(1)[i].0 == k;
            assert(s[i + 1].0 == k);
        }
    }
}

/// What storing one pair does: the result is well formed, holds `v` under
/// `k`, leaves every other key alone, and grows by one entry exactly when `k`
/// was absent.
pub proof fn lemma_insert_spec(s: Entries, k: Seq<u8>, v: Seq<u8>)
    requires
        entries_wf(s),
    ensures
        entries_wf(entries_insert(s, k, v)),
        lookup(entries_insert(s, k, v), k) == Some(v),
        forall|k2: Seq<u8>| k2 != k ==> #[trigger] lookup(entries_insert(s, k, v), k2)
            == lookup(s, k2),
        forall|k2: Seq<u8>| #[trigger] has_key(entries_insert(s, k, v), k2)
            <==> (has_key(s, k2) || k2 == k),
        entries_insert(s, k, v).len() == s.len() + (if has_key(s, k) { 0int } else { 1 }),
    decreases s.len(), 1int,
{
    let r = entries_insert(s, k, v);
    lemma_lookup_has_key(s, k);
    lemma_lookup_has_key(r, k);
    if s.len() == 0 {
        assert(r =~= seq![(k, v)]);
        assert forall|k2: Seq<u8>| k2 != k implies #[trigger] lookup(r, k2) == lookup(s, k2) by {
            assert(r.skip(1) =~= s);
        }
        assert forall|k2: Seq<u8>| #[trigger] has_key(r, k2) implies (has_key(s, k2) || k2 == k)
            by {
            let i = choose|i: int| 0 <= i < r.len() && r[i].0 == k2;
            assert(i == 0);
        }
        assert(has_key(r, k)) by {
            assert(r[0].0 == k);
        }
    } else {
        lemma_lex_trichotomy(k, s[0].0);
        lemma_wf_tail(s);
        if lex_lt(k, s[0].0) {
            lemma_head_insert_front(s, k, v);
        } else if k == s[0].0 {
            lemma_head_insert_replace(s, k, v);
        } else {
            lemma_head_insert_deep(s, k, v);
        }
    }
}

/// The case of `lemma_insert_spec` where the new key comes before every
/// present key.
proof fn lemma_head_insert_front(s: Entries, k: Seq<u8>, v: Seq<u8>)
    requires
        entries_wf(s),
        s.len() > 0,
        lex_lt(k, s[0].0),
    ensures
        entries_wf(entries_insert(s, k, v)),
        lookup(entries_insert(s, k, v), k) == Some(v),
        forall|k2: Seq<u8>| k2 != k ==> #[trigger] lookup(entries_insert(s, k, v), k2)
            == lookup(s, k2),
        forall|k2: Seq<u8>| #[trigger] has_key(entries_insert(s, k, v), k2)
            <==> (has_key(s, k2) || k2 == k),
        entries_insert(s, k, v).len() == s.len() + 1,
        !has_key(s, k),
{
    let r = entries_insert(s, k, v);
    assert(r == seq![(k, v)] + s);
    assert(r.skip(1) =~= s);
    assert forall|i: int| 0 <= i < s.len() implies lex_lt(k, #[trigger] s[i].0) by {
        if i > 0 {
            lemma_lex_transitive(k, s[0].0, s[i].0);
        }
    }
    assert(!has_key(s, k)) by {
        if has_key(s, k) {
            let i = choose|i: int| 0 <= i < s.len() && s[i].0 == k;
            lemma_lex_trichotomy(k, s[i].0);
        }
    }
    assert forall|i: int, j: int|
        #![trigger r[i], r[j]]
        0 <= i < j < r.len() implies lex_lt(r[i].0, r[j].0) by {
        if i > 0 {
            assert(r[i] == s[i - 1] && r[j] == s[j - 1]);
        } else {
            assert(r[j] == s[j - 1]);
        }
    }
    assert forall|k2: Seq<u8>| #[trigger] has_key(r, k2) implies (has_key(s, k2) || k2 == k) by {
        let i = choose|i: int| 0 <= i < r.len() && r[i].0 == k2;
        if i > 0 {
            assert(s[i - 1].0 == k2);
        }
    }
    assert forall|k2: Seq<u8>| has_key(s, k2) || k2 == k implies #[trigger] has_key(r, k2) by {
        if k2 == k {
            assert(r[0].0 == k);
        } else {
            let i = choose|i: int| 0 <= i < s.len() && s[i].0 == k2;
            assert(r[i + 1].0 == k2);
        }
    }
}

/// The case of `lemma_insert_spec` where the new key equals the first key.
proof fn lemma_head_insert_replace(s: Entries, k: Seq<u8>, v: Seq<u8>)
    requires
        entries_wf(s),
        s.len() > 0,
        k == s[0].0,
    ensures
        entries_wf(entries_insert(s, k, v)),
        lookup(entries_insert(s, k, v), k) == Some(v),
        forall|k2: Seq<u8>| k2 != k ==> #[trigger] lookup(entries_insert(s, k, v), k2)
            == lookup(s, k2),
        forall|k2: Seq<u8>| #[trigger] has_key(entries_insert(s, k, v), k2)
            <==> (has_key(s, k2) || k2 == k),
        entries_insert(s, k, v).len() == s.len(),
        has_key(s, k),
{
    let r = entries_insert(s, k, v);
    lemma_wf_tail(s);
    lemma_lex_trichotomy(k, s[0].0);
    assert(r == seq![(k, v)] + s.skip(1));
    assert(r.skip(1) =~= s.skip(1));
    assert(has_key(s, k)) by {
        assert(s[0].0 == k);
    }
    assert forall|i: int, j: int|
        #![trigger r[i], r[j]]
        0 <= i < j < r.len() implies lex_lt(r[i].0, r[j].0) by {
        if i > 0 {
            assert(r[i] == s.skip(1)[i - 1] && r[j] == s.skip(1)[j - 1]);
        } else {
            assert(r[j] == s.skip(1)[j - 1]);
        }
    }
    assert forall|k2: Seq<u8>| k2 != k implies #[trigger] lookup(r, k2) == lookup(s, k2) by {
        assert(lookup(r, k2) == lookup(s.skip(1), k2));
        assert(lookup(s, k2) == lookup(s.skip(1), k2));
    }
    assert forall|k2: Seq<u8>| #[trigger] has_key(r, k2) implies (has_key(s, k2) || k2 == k) by {
        let i = choose|i: int| 0 <= i < r.len() && r[i].0 == k2;
        if i > 0 {
            assert(s[i].0 == k2);
        }
    }
    assert forall|k2: Seq<u8>| has_key(s, k2) || k2 == k implies #[trigger] has_key(r, k2) by {
        if k2 == k {
            assert(r[0].0 == k);
        } else {
            let i = choose|i: int| 0 <= i < s.len() && s[i].0 == k2;
            assert(i > 0);
            assert(r[i].0 == k2);
        }
    }
}

/// The case of `lemma_insert_spec` where the new key goes after the first key.
proof fn lemma_head_insert_deep(s: Entries, k: Seq<u8>, v: Seq<u8>)
    requires
        entries_wf(s),
        s.len() > 0,
        lex_lt(s[0].0, k),
    ensures
        entries_wf(entries_insert(s, k, v)),
        lookup(entries_insert(s, k, v), k) == Some(v),
        forall|k2: Seq<u8>| k2 != k ==> #[trigger] lookup(entries_insert(s, k, v), k2)
            == lookup(s, k2),
        forall|k2: Seq<u8>| #[trigger] has_key(entries_insert(s, k, v), k2)
            <==> (has_key(s, k2) || k2 == k),
        entries_insert(s, k, v).len() == s.len() + (if has_key(s, k) { 0int } else { 1 }),
    decreases s.len(), 0int,
{
    let r = entries_insert(s, k, v);
    let t = entries_insert(s.skip(1), k, v);
    lemma_lex_trichotomy(k, s[0].0);
    lemma_wf_tail(s);
    lemma_insert_spec(s.skip(1), k, v);
    assert(r == seq![s[0]] + t);
    assert(r.skip(1) =~= t);
    assert(has_key(s, k) <==> has_key(s.skip(1), k)) by {
        if has_key(s, k) {
            let i = choose|i: int| 0 <= i < s.len() && s[i].0 == k;
            assert(i > 0);
            assert(s.skip(1)[i - 1].0 == k);
        }
        if has_key(s.skip(1), k) {
            let i = choose|i: int| 0 <= i < s.skip(1).len() && s.skip(1)[i].0 == k;
            assert(s[i + 1].0 == k);
        }
    }
    assert forall|i: int, j: int|
        #![trigger r[i], r[j]]
        0 <= i < j < r.len() implies lex_lt(r[i].0, r[j].0) by {
        if i > 0 {
            assert(r[i] == t[i - 1] && r[j] == t[j - 1]);
        } else {
            assert(r[j] == t[j - 1]);
            assert(has_key(t, t[j - 1].0)) by {
                assert(t[j - 1].0 == t[j - 1].0);
            }
            if has_key(s.skip(1), t[j - 1].0) {
                let m = choose|m: int|
                    0 <= m < s.skip(1).len() && s.skip(1)[m].0 == t[j - 1].0;
                assert(lex_lt(s[0].0, s.skip(1)[m].0));
            } else {
                assert(t[j - 1].0 == k);
            }
        }
    }
    assert forall|k2: Seq<u8>| k2 != k implies #[trigger] lookup(r, k2) == lookup(s, k2) by {
        if s[0].0 == k2 {
            assert(r[0].0 == k2);
        } else {
            assert(lookup(r, k2) == lookup(t, k2));
            assert(lookup(s, k2) == lookup(s.skip(1), k2));
        }
    }
    assert(lookup(r, k) == Some(v)) by {
        assert(r[0].0 != k);
        assert(lookup(r, k) == lookup(t, k));
    }
    assert forall|k2: Seq<u8>| #[trigger] has_key(r, k2) implies
        (has_key(s, k2) || k2 == k) by {
        let i = choose|i: int| 0 <= i < r.len() && r[i].0 == k2;
        if i == 0 {
            assert(s[0].0 == k2);
        } else {
            assert(t[i - 1].0 == k2);
            assert(has_key(t, k2));
            if has_key(s.skip(1), k2) {
                let m = choose|m: int| 0 <= m < s.skip(1).len() && s.skip(1)[m].0 == k2;
                assert(s[m + 1].0 == k2);
            }
        }
    }
    assert forall|k2: Seq<u8>| has_key(s, k2) || k2 == k implies #[trigger] has_key(r, k2) by {
        if k2 == k || !has_key(s, k2) {
            assert(has_key(t, k));
            let m = choose|m: int| 0 <= m < t.len() && t[m].0 == k;
            assert(r[m + 1].0 == k);
        } else {
            let i = choose|i: int| 0 <= i < s.len() && s[i].0 == k2;
            if i == 0 {
                assert(r[0].0 == k2);
            } else {
                assert(s.skip(1)[i - 1].0 == k2);
                assert(has_key(s.skip(1), k2));
                assert(has_key(t, k2));
                let m = choose|m: int| 0 <= m < t.len() && t[m].0 == k2;
                assert(r[m + 1].0 == k2);
            }
        }
    }
}

/// What removing one key does: the result is well formed, no longer holds
/// `k`, leaves every other key alone, and shrinks by one entry exactly when
/// `k` was present.
pub proof fn lemma_remove_spec(s: Entries, k: Seq<u8>)
    requires
        entries_wf(s),
    ensures
        entries_wf(entries_remove(s, k)),
        !has_key(entries_remove(s, k), k),
        forall|k2: Seq<u8>| k2 != k ==> #[trigger] lookup(entries_remove(s, k), k2)
            == lookup(s, k2),
        forall|k2: Seq<u8>| k2 != k ==> (#[trigger] has_key(entries_remove(s, k), k2)
            <==> has_key(s, k2)),
        entries_remove(s, k).len() == s.len() - (if has_key(s, k) { 1int } else { 0 }),
    decreases s.len(),
{
    let r = entries_remove(s, k);
    if s.len() == 0 {
    } else {
        lemma_wf_tail(s);
        if s[0].0 == k {
            assert(r == s.skip(1));
            assert(!has_key(r, k)) by {
                if has_key(r, k) {
                    let i = choose|i: int| 0 <= i < r.len() && r[i].0 == k;
                    lemma_lex_trichotomy(s[0].0, r[i].0);
                }
            }
            assert(has_key(s, k)) by {
                assert(s[0].0 == k);
            }
            assert forall|k2: Seq<u8>| k2 != k implies
                (#[trigger] has_key(r, k2) <==> has_key(s, k2)) by {
                if has_key(r, k2) {
                    let i = choose|i: int| 0 <= i < r.len() && r[i].0 == k2;
                    assert(s[i + 1].0 == k2);
                }
                if has_key(s, k2) {
                    let i = choose|i: int| 0 <= i < s.len() && s[i].0 == k2;
                    assert(i > 0);
                    assert(r[i - 1].0 == k2);
                }
            }
        } else {
            let t = entries_remove(s.skip(1), k);
            lemma_remove_spec(s.skip(1), k);
            assert(r == seq![s[0]] + t);
            assert(r.skip(1) =~= t);
            assert(has_key(s, k) <==> has_key(s.skip(1), k)) by {
                if has_key(s, k) {
                    let i = choose|i: int| 0 <= i < s.len() && s[i].0 == k;
                    assert(i > 0);
                    assert(s.skip(1)[i - 1].0 == k);
                }
                if has_key(s.skip(1), k) {
                    let i = choose|i: int| 0 <= i < s.skip(1).len() && s.skip(1)[i].0 == k;
                    assert(s[i + 1].0 == k);
                }
            }
            assert forall|i: int, j: int|
                #![trigger r[i], r[j]]
                0 <= i < j < r.len() implies lex_lt(r[i].0, r[j].0) by {
                if i > 0 {
                    assert(r[i] == t[i - 1] && r[j] == t[j - 1]);
                } else {
                    assert(r[j] == t[j - 1]);
                    assert(has_key(t, t[j - 1].0)) by {
                        assert(t[j - 1].0 == t[j - 1].0);
                    }
                    assert(has_key(s.skip(1), t[j - 1].0));
                    let m = choose|m: int|
                        0 <= m < s.skip(1).len() && s.skip(1)[m].0 == t[j - 1].0;
                    assert(lex_lt(s[0].0, s.skip(1)[m].0));
                }
            }
            assert(!has_key(r, k)) by {
                if has_key(r, k) {
                    let i = choose|i: int| 0 <= i < r.len() && r[i].0 == k;
                    assert(i > 0);
                    assert(t[i - 1].0 == k);
                }
            }
            assert forall|k2: Seq<u8>| k2 != k implies
                (#[trigger] has_key(r, k2) <==> has_key(s, k2)) by {
                if has_key(r, k2) {
                    let i = choose|i: int| 0 <= i < r.len() && r[i].0 == k2;
                    if i == 0 {
                        assert(s[0].0 == k2);
                    } else {
                        assert(0 <= i - 1 < t.len() && t[i - 1].0 == k2);
                        assert(has_key(t, k2));
                        assert(has_key(s.skip(1), k2));
                        let m = choose|m: int|
                            0 <= m < s.skip(1).len() && s.skip(1)[m].0 == k2;
                        assert(s[m + 1].0 == k2);
                    }
                }
                if has_key(s, k2) {
                    let i = choose|i: int| 0 <= i < s.len() && s[i].0 == k2;
                    if i == 0 {
                        assert(r[0].0 == k2);
                    } else {
                        assert(s.skip(1)[i - 1].0 == k2);
                        assert(has_key(s.skip(1), k2));
                        assert(has_key(t, k2));
                        let m = choose|m: int| 0 <= m < t.len() && t[m].0 == k2;
                        assert(r[m + 1].0 == k2);
                    }
                }
            }
            assert forall|k2: Seq<u8>| k2 != k implies #[trigger] lookup(r, k2)
                == lookup(s, k2) by {
                if s[0].0 == k2 {
                    assert(r[0].0 == k2);
                } else {
                    assert(lookup(r, k2) == lookup(t, k2));
                    assert(lookup(s, k2) == lookup(s.skip(1), k2));
                }
            }
        }
    }
}

/// Storing a whole batch adds exactly the batch's keys.
pub proof fn lemma_insert_all_spec(s: Entries, pairs: Entries)
    requires
        entries_wf(s),
    ensures
        entries_wf(entries_insert_all(s, pairs)),
        forall|k2: Seq<u8>| #[trigger] has_key(entries_insert_all(s, pairs), k2)
            <==> (has_key(s, k2) || key_seq(pairs).contains(k2)),
    decreases pairs.len(),
{
    if pairs.len() > 0 {
        let s1 = entries_insert(s, pairs[0].0, pairs[0].1);
        lemma_insert_spec(s, pairs[0].0, pairs[0].1);
        lemma_insert_all_spec(s1, pairs.skip(1));
        assert forall|k2: Seq<u8>| key_seq(pairs).contains(k2)
            implies (k2 == pairs[0].0 || key_seq(pairs.skip(1)).contains(k2)) by {
            let i = choose|i: int| 0 <= i < key_seq(pairs).len() && key_seq(pairs)[i] == k2;
            if i > 0 {
                assert(key_seq(pairs.skip(1))[i - 1] == k2);
            }
        }
        assert forall|k2: Seq<u8>| key_seq(pairs.skip(1)).contains(k2)
            implies key_seq(pairs).contains(k2) by {
            let i = choose|i: int|
                0 <= i < key_seq(pairs.skip(1)).len() && key_seq(pairs.skip(1))[i] == k2;
            assert(key_seq(pairs)[i + 1] == k2);
        }
        assert(key_seq(pairs).contains(pairs[0].0)) by {
            assert(key_seq(pairs)[0] == pairs[0].0);
        }
    }
}

/// Removing a whole batch of keys takes away exactly those keys.
pub proof fn lemma_remove_all_spec(s: Entries, ks: Seq<Seq<u8>>)
    requires
        entries_wf(s),
    ensures
        entries_wf(entries_remove_all(s, ks)),
        forall|k2: Seq<u8>| #[trigger] has_key(entries_remove_all(s, ks), k2)
            <==> (has_key(s, k2) && !ks.contains(k2)),
    decreases ks.len(),
{
    if ks.len() > 0 {
        let s1 = entries_remove(s, ks[0]);
        lemma_remove_spec(s, ks[0]);
        lemma_remove_all_spec(s1, ks.skip(1));
        assert forall|k2: Seq<u8>| ks.contains(k2)
            implies (k2 == ks[0] || ks.skip(1).contains(k2)) by {
            let i = choose|i: int| 0 <= i < ks.len() && ks[i] == k2;
            if i > 0 {
                assert(ks.skip(1)[i - 1] == k2);
            }
        }
        assert forall|k2: Seq<u8>| ks.skip(1).contains(k2) implies ks.contains(k2) by {
            let i = choose|i: int| 0 <= i < ks.skip(1).len() && ks.skip(1)[i] == k2;
            assert(ks[i + 1] == k2);
        }
        assert(ks.contains(ks[0]));
    }
}

/// In well-formed contents, the entry found at a key's position is what a
/// lookup of that key returns.
pub proof fn lemma_lookup_at(s: Entries, k: Seq<u8>, pos: int)
    requires
        entries_wf(s),
        0 <= pos < s.len(),
        s[pos].0 == k,
    ensures
        lookup(s, k) == Some(s[pos].1),
        has_key(s, k),
    decreases pos,
{
    assert(has_key(s, k)) by {
        assert(s[pos].0 == k);
    }
    if pos == 0 {
    } else {
        lemma_lex_trichotomy(s[0].0, s[pos].0);
        lemma_wf_tail(s);
        assert(s.skip(1)[pos - 1] == s[pos]);
        lemma_lookup_at(s.skip(1), k, pos - 1);
    }
}

/// Storing at the ordered position is what `entries_insert` means: an update
/// in place when the key is already there, a positional insertion otherwise.
pub proof fn lemma_insert_at(s: Entries, k: Seq<u8>, v: Seq<u8>, pos: int)
    requires
        entries_wf(s),
        0 <= pos <= s.len(),
        forall|j: int| 0 <= j < pos ==> lex_lt(#[trigger] s[j].0, k),
        pos < s.len() ==> !lex_lt(s[pos].0, k),
    ensures
        pos < s.len() && s[pos].0 == k ==> entries_insert(s, k, v) == s.update(pos, (k, v)),
        pos == s.len() || s[pos].0 != k ==> entries_insert(s, k, v) == s.insert(pos, (k, v)),
    decreases pos,
{
    if pos == 0 {
        if s.len() == 0 {
            assert(entries_insert(s, k, v) =~= s.insert(0, (k, v)));
        } else {
            lemma_lex_trichotomy(k, s[0].0);
            if s[0].0 == k {
                assert(entries_insert(s, k, v) =~= s.update(0, (k, v)));
            } else {
                assert(lex_lt(k, s[0].0));
                assert(entries_insert(s, k, v) =~= s.insert(0, (k, v)));
            }
        }
    } else {
        lemma_lex_trichotomy(k, s[0].0);
        lemma_wf_tail(s);
        assert(lex_lt(s[0].0, k));
        assert forall|j: int| 0 <= j < pos - 1 implies lex_lt(#[trigger] s.skip(1)[j].0, k) by {
            assert(s.skip(1)[j] == s[j + 1]);
        }
        assert(pos - 1 < s.skip(1).len() ==> !lex_lt(s.skip(1)[pos - 1].0, k)) by {
            if pos < s.len() {
                assert(s.skip(1)[pos - 1] == s[pos]);
            }
        }
        lemma_insert_at(s.skip(1), k, v, pos - 1);
        if pos < s.len() && s[pos].0 == k {
            assert(s.skip(1)[pos - 1] == s[pos]);
            assert(entries_insert(s, k, v)
                == seq![s[0]] + s.skip(1).update(pos - 1, (k, v)));
            assert(seq![s[0]] + s.skip(1).update(pos - 1, (k, v)) =~= s.update(pos, (k, v)));
        } else {
            assert(pos - 1 == s.skip(1).len() || s.skip(1)[pos - 1].0 != k) by {
                if pos < s.len() {
                    assert(s.skip(1)[pos - 1] == s[pos]);
                }
            }
            assert(entries_insert(s, k, v)
                == seq![s[0]] + s.skip(1).insert(pos - 1, (k, v)));
            assert(seq![s[0]] + s.skip(1).insert(pos - 1, (k, v)) =~= s.insert(pos, (k, v)));
        }
    }
}

/// Removing the entry at a key's position is what `entries_remove` means.
pub proof fn lemma_remove_at(s: Entries, k: Seq<u8>, pos: int)
    requires
        entries_wf(s),
        0 <= pos < s.len(),
        s[pos].0 == k,
    ensures
        entries_remove(s, k) == s.remove(pos),
    decreases pos,
{
    if pos == 0 {
        assert(entries_remove(s, k) =~= s.remove(0));
    } else {
        lemma_lex_trichotomy(s[0].0, s[pos].0);
        lemma_wf_tail(s);
        assert(s.skip(1)[pos - 1] == s[pos]);
        lemma_remove_at(s.skip(1), k, pos - 1);
        assert(entries_remove(s, k) == seq![s[0]] + s.skip(1).remove(pos - 1));
        assert(seq![s[0]] + s.skip(1).remove(pos - 1) =~= s.remove(pos));
    }
}

/// Storing an entry whose key lies above every present key appends it.
pub proof fn lemma_insert_append(s: Entries, k: Seq<u8>, v: Seq<u8>)
    requires
        entries_wf(s),
        forall|i: int| 0 <= i < s.len() ==> lex_lt(#[trigger] s[i].0, k),
    ensures
        entries_insert(s, k, v) == s.push((k, v)),
{
    lemma_insert_at(s, k, v, s.len() as int);
    assert(s.insert(s.len() as int, (k, v)) =~= s.push((k, v)));
}

/// Storing a batch that extends the contents in key order appends it
/// unchanged, pair by pair.
pub proof fn lemma_insert_all_sorted(s: Entries, pairs: Entries)
    requires
        entries_wf(s + pairs),
    ensures
        entries_insert_all(s, pairs) == s + pairs,
    decreases pairs.len(),
{
    if pairs.len() == 0 {
        assert(s + pairs =~= s);
    } else {
        assert(entries_wf(s)) by {
            assert forall|i: int, j: int|
                #![trigger s[i], s[j]]
                0 <= i < j < s.len() implies lex_lt(s[i].0, s[j].0) by {
                assert((s + pairs)[i] == s[i]);
                assert((s + pairs)[j] == s[j]);
            }
        }
        assert forall|i: int| 0 <= i < s.len() implies lex_lt(#[trigger] s[i].0, pairs[0].0) by {
            assert((s + pairs)[i] == s[i]);
            assert((s + pairs)[s.len() as int] == pairs[0]);
        }
        lemma_insert_append(s, pairs[0].0, pairs[0].1);
        assert((pairs[0].0, pairs[0].1) == pairs[0]);
        let s1 = s.push(pairs[0]);
        assert(s1 + pairs.skip(1) =~= s + pairs);
        lemma_insert_all_sorted(s1, pairs.skip(1));
    }
}

/// Removing an absent key changes nothing.
pub proof fn lemma_remove_absent(s: Entries, k: Seq<u8>)
    requires
        !has_key(s, k),
    ensures
        entries_remove(s, k) == s,
    decreases s.len(),
{
    if s.len() > 0 {
        assert(s[0].0 != k);
        assert(!has_key(s.skip(1), k)) by {
            if has_key(s.skip(1), k) {
                let i = choose|i: int| 0 <= i < s.skip(1).len() && s.skip(1)[i].0 == k;
                assert(s[i + 1].0 == k);
            }
        }
        lemma_remove_absent(s.skip(1), k);
        assert(seq![s[0]] + s.skip(1) =~= s);
    }
}

/// Contents with no key at all are empty.
pub proof fn lemma_no_keys_empty(s: Entries)
    requires
        forall|k2: Seq<u8>| !has_key(s, k2),
    ensures
        s.len() == 0,
{
    if s.len() > 0 {
        assert(has_key(s, s[0].0)) by {
            assert(s[0].0 == s[0].0);
        }
    }
}

/// A well-formed tail is well formed, and every tail key is above the head.
pub proof fn lemma_wf_tail(s: Entries)
    requires
        entries_wf(s),
        s.len() > 0,
    ensures
        entries_wf(s.skip(1)),
        forall|i: int| 0 <= i < s.skip(1).len() ==> lex_lt(s[0].0, #[trigger] s.skip(1)[i].0),
{
    assert forall|i: int, j: int|
        #![trigger s.skip(1)[i], s.skip(1)[j]]
        0 <= i < j < s.skip(1).len()
        implies lex_lt(s.skip(1)[i].0, s.skip(1)[j].0) by {
        assert(s.skip(1)[i] == s[i + 1]);
        assert(s.skip(1)[j] == s[j + 1]);
    }
    assert forall|i: int| 0 <= i < s.skip(1).len()
        implies lex_lt(s[0].0, #[trigger] s.skip(1)[i].0) by {
        assert(s.skip(1)[i] == s[i + 1]);
    }
}

} // verus!
