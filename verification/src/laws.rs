//! The harness's cross-cutting laws, each proved from the models alone.

use vstd::prelude::*;

use crate::bytes::{be_bytes, lemma_key_codec, lemma_u64_key_order};
use crate::fixture::FixtureKind;
use crate::model::{
    entries_insert_all, entries_range, entries_remove_all, entries_wf, has_key, key_seq,
    lemma_insert_all_sorted, lemma_insert_all_spec, lemma_no_keys_empty, lemma_range_full,
    lemma_remove_all_spec, Entries,
};
use crate::order::{lex_leq, lex_lt};
use crate::phases::{hit_count, key_weight, key_weight_sum, sequential_pairs};
use crate::scenario::{distinct_scenarios, Scenario};
use crate::workload::workload;

verus! {

/// Workload generation is deterministic: one seed, one pair of kinds and one
/// count name a single workload, so two generations of it are equal.
pub proof fn lemma_workload_deterministic(
    kk: FixtureKind,
    vk: FixtureKind,
    seed: u64,
    n: nat,
    r1: Seq<(Seq<u8>, Seq<u8>)>,
    r2: Seq<(Seq<u8>, Seq<u8>)>,
)
    requires
        r1 == workload(kk, vk, seed, n),
        r2 == workload(kk, vk, seed, n),
    ensures
        r1 == r2,
{
}

/// Inserting a workload of pairwise distinct keys into an empty store and
/// then removing every one of those keys leaves the store empty: no key is
/// contained, and there are no entries at all.
pub proof fn lemma_insert_then_remove_all_empty(pairs: Entries)
    requires
        forall|i: int, j: int|
            #![trigger pairs[i], pairs[j]]
            0 <= i < j < pairs.len() ==> pairs[i].0 != pairs[j].0,
    ensures
        forall|k: Seq<u8>|
            !has_key(
                entries_remove_all(
                    entries_insert_all(Seq::<(Seq<u8>, Seq<u8>)>::empty(), pairs),
                    key_seq(pairs),
                ),
                k,
            ),
        entries_remove_all(
            entries_insert_all(Seq::<(Seq<u8>, Seq<u8>)>::empty(), pairs),
            key_seq(pairs),
        ).len() == 0,
{
    let empty = Seq::<(Seq<u8>, Seq<u8>)>::empty();
    let filled = entries_insert_all(empty, pairs);
    let cleared = entries_remove_all(filled, key_seq(pairs));
    assert(entries_wf(empty));
    lemma_insert_all_spec(empty, pairs);
    lemma_remove_all_spec(filled, key_seq(pairs));
    assert forall|k: Seq<u8>| !has_key(cleared, k) by {
        if has_key(cleared, k) {
            assert(has_key(filled, k) && !key_seq(pairs).contains(k));
            assert(!has_key(empty, k));
            assert(key_seq(pairs).contains(k));
        }
    }
    lemma_no_keys_empty(cleared);
}

/// Forward and reverse ordered traversal visit the same entries, each order
/// exactly the other turned around.
pub proof fn lemma_reverse_traversal(s: Entries, fwd: Entries, bwd: Entries)
    requires
        fwd == s,
        bwd == s.reverse(),
    ensures
        bwd == fwd.reverse(),
        fwd.to_multiset() == bwd.to_multiset(),
        forall|p: (Seq<u8>, Seq<u8>)| #[trigger] fwd.contains(p) <==> bwd.contains(p),
{
    fwd.lemma_reverse_to_multiset();
    assert forall|p: (Seq<u8>, Seq<u8>)| #[trigger] fwd.contains(p) implies bwd.contains(p) by {
        let i = choose|i: int| 0 <= i < fwd.len() && fwd[i] == p;
        assert(bwd[fwd.len() - 1 - i] == p);
    }
    assert forall|p: (Seq<u8>, Seq<u8>)| #[trigger] bwd.contains(p) implies fwd.contains(p) by {
        let i = choose|i: int| 0 <= i < bwd.len() && bwd[i] == p;
        assert(fwd[bwd.len() - 1 - i] == p);
    }
}

/// When every key of a list is present, point queries over the list hit
/// every time: the hit count is the list's length.
pub proof fn lemma_hit_count_all(s: Entries, ks: Seq<Seq<u8>>)
    requires
        forall|i: int| 0 <= i < ks.len() ==> has_key(s, #[trigger] ks[i]),
    ensures
        hit_count(s, ks) == ks.len(),
    decreases ks.len(),
{
    if ks.len() > 0 {
        assert(has_key(s, ks[0]));
        assert forall|i: int| 0 <= i < ks.skip(1).len() implies has_key(
            s,
            #[trigger] ks.skip(1)[i],
        ) by {
            assert(ks.skip(1)[i] == ks[i + 1]);
        }
        lemma_hit_count_all(s, ks.skip(1));
    }
}

/// In well-formed contents, the first entry's key is minimal and the last
/// entry's key is maximal.
pub proof fn lemma_ends_are_extreme(s: Entries)
    requires
        entries_wf(s),
        s.len() > 0,
    ensures
        forall|i: int| 0 <= i < s.len() ==> lex_leq(s[0].0, #[trigger] s[i].0),
        forall|i: int| 0 <= i < s.len() ==> lex_leq(#[trigger] s[i].0, s.last().0),
{
    assert forall|i: int| 0 <= i < s.len() implies lex_leq(s[0].0, #[trigger] s[i].0) by {
        if i > 0 {
            assert(lex_lt(s[0].0, s[i].0));
        }
    }
    assert forall|i: int| 0 <= i < s.len() implies lex_leq(#[trigger] s[i].0, s.last().0) by {
        if i < s.len() - 1 {
            assert(lex_lt(s[i].0, s[s.len() - 1].0));
        }
    }
}

/// Sequential keys ascend strictly, so populating an empty store with a
/// sequential workload stores exactly that workload, in order.
pub proof fn lemma_sequential_population(vals: Seq<Seq<u8>>)
    requires
        vals.len() <= 0x1_0000_0000_0000_0000,
    ensures
        entries_wf(sequential_pairs(vals)),
        entries_insert_all(Seq::<(Seq<u8>, Seq<u8>)>::empty(), sequential_pairs(vals))
            == sequential_pairs(vals),
{
    let sp = sequential_pairs(vals);
    assert forall|i: int, j: int|
        #![trigger sp[i], sp[j]]
        0 <= i < j < sp.len() implies lex_lt(sp[i].0, sp[j].0) by {
        lemma_u64_key_order(i as u64, j as u64);
    }
    assert(Seq::<(Seq<u8>, Seq<u8>)>::empty() + sp =~= sp);
    lemma_insert_all_sorted(Seq::<(Seq<u8>, Seq<u8>)>::empty(), sp);
}

/// A full range scan of a sequential workload of `n` payloads sums its keys
/// to the sum of the integers below `n`.
pub proof fn lemma_sequential_key_sum(vals: Seq<Seq<u8>>)
    requires
        vals.len() <= 0x1_0000_0000_0000_0000,
    ensures
        2 * key_weight_sum(sequential_pairs(vals)) == vals.len() * (vals.len() - 1),
    decreases vals.len(),
{
    let sp = sequential_pairs(vals);
    let n = vals.len() as int;
    if n == 0 {
    } else {
        assert(sequential_pairs(vals.drop_last()) =~= sp.drop_last());
        lemma_sequential_key_sum(vals.drop_last());
        assert(sp.last().0 == be_bytes((n - 1) as u64));
        lemma_key_codec((n - 1) as u64);
        assert(key_weight(sp.last().0) == n - 1);
        assert((n - 1) * (n - 2) + 2 * (n - 1) == n * (n - 1)) by (nonlinear_arith);
    }
}

/// Deduplicated scenario pairs resolve to a single executable scenario: in
/// the table, two positions holding the same scenario are the same position.
pub proof fn lemma_scenario_single(s: Seq<Scenario>, i: int, j: int)
    requires
        distinct_scenarios(s),
        0 <= i < s.len(),
        0 <= j < s.len(),
        s[i] == s[j],
    ensures
        i == j,
{
    if i < j {
        assert(s[i] != s[j]);
    }
    if j < i {
        assert(s[j] != s[i]);
    }
}

/// A range scan over the whole key space visits exactly as many entries as
/// the store holds.
pub proof fn lemma_full_range_count(s: Entries)
    ensures
        entries_range(s, None, None) == s,
        entries_range(s, None, None).len() == s.len(),
{
    lemma_range_full(s);
}

} // verus!
