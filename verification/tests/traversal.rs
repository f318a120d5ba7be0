//! Ordered traversal and range scans: reversal, full-range counts, and the
//! large-payload class with sequential integer keys.

use stable_map_bench::bytes::u64_key;
use stable_map_bench::fixture::FixtureKind;
use stable_map_bench::phases::{populate, populate_sequential, range_count, range_key_sum, range_value_sum, traverse, TraversalMode};
use stable_map_bench::stable::DirectMap;
use stable_map_bench::store::{KeyBound, MapStore, OrderedStore};
use stable_map_bench::vec_store::VecStore;
use stable_map_bench::workload::{generate, generate_blocks};

const MIB: usize = 1024 * 1024;

#[test]
fn reverse_traversal_is_forward_reversed() {
    let pairs = generate(
        FixtureKind::Bounded { width: 16 },
        FixtureKind::Unbounded { capacity: 64 },
        0,
        80,
    );
    let mut m = DirectMap::new();
    populate(&mut m, &pairs);
    let fwd = m.entries_vec();
    let mut rev = m.entries_vec_rev();
    rev.reverse();
    assert_eq!(fwd, rev);
    let keys_fwd = m.keys_vec();
    let mut keys_rev = m.keys_vec_rev();
    keys_rev.reverse();
    assert_eq!(keys_fwd, keys_rev);
    let values_fwd = m.values_vec();
    let mut values_rev = m.values_vec_rev();
    values_rev.reverse();
    assert_eq!(values_fwd, values_rev);
}

#[test]
fn traversal_visits_every_entry_in_every_mode() {
    let pairs = generate(
        FixtureKind::Bounded { width: 8 },
        FixtureKind::Bounded { width: 32 },
        0,
        200,
    );
    let mut m = VecStore::new();
    populate(&mut m, &pairs);
    let n = m.len() as usize;
    for mode in [
        TraversalMode::Entries,
        TraversalMode::EntriesRev,
        TraversalMode::Keys,
        TraversalMode::KeysRev,
        TraversalMode::Values,
        TraversalMode::ValuesRev,
    ] {
        assert_eq!(traverse(&m, &mode), n);
    }
}

#[test]
fn full_range_count_equals_store_length() {
    let pairs = generate(
        FixtureKind::Unbounded { capacity: 32 },
        FixtureKind::Bounded { width: 16 },
        9,
        150,
    );
    let mut m = DirectMap::new();
    populate(&mut m, &pairs);
    let n = m.len() as usize;
    assert_eq!(range_count(&m, &KeyBound::Unbounded, &KeyBound::Unbounded), n);
}

#[test]
fn large_payload_range_scans() {
    // Twenty entries of ten-mebibyte payloads under sequential integer keys.
    let values = generate_blocks(0, 20, 10 * MIB);
    let mut m = DirectMap::new();
    populate_sequential(&mut m, &values);
    assert_eq!(m.len(), 20);
    let all = (KeyBound::Unbounded, KeyBound::Unbounded);
    assert_eq!(range_count(&m, &all.0, &all.1), 20);
    // The keys 0 through 19 sum to 190.
    assert_eq!(range_key_sum(&m, &all.0, &all.1), 190);
    // Keys divisible by three: 0, 3, 6, 9, 12, 15, 18 — seven payloads.
    assert_eq!(range_value_sum(&m, &all.0, &all.1), (7 * 10 * MIB) as u128);
}

#[test]
fn bounded_range_scans_select_the_window() {
    let mut m = VecStore::new();
    for i in 0..20u64 {
        m.insert(u64_key(i), vec![0u8; i as usize]);
    }
    let lo = KeyBound::Included(u64_key(5));
    let hi = KeyBound::Included(u64_key(9));
    assert_eq!(range_count(&m, &lo, &hi), 5);
    assert_eq!(range_key_sum(&m, &lo, &hi), (5 + 6 + 7 + 8 + 9) as u128);
    // Keys divisible by three within the window: 6 and 9.
    assert_eq!(range_value_sum(&m, &lo, &hi), (6 + 9) as u128);
    let window = m.range_vec(&lo, &hi);
    assert_eq!(window.len(), 5);
    assert_eq!(window[0].0, u64_key(5));
    assert_eq!(window[4].0, u64_key(9));
}

#[test]
fn empty_store_scans_are_empty() {
    let m = VecStore::new();
    assert_eq!(traverse(&m, &TraversalMode::Entries), 0);
    assert_eq!(range_count(&m, &KeyBound::Unbounded, &KeyBound::Unbounded), 0);
    assert_eq!(range_key_sum(&m, &KeyBound::Unbounded, &KeyBound::Unbounded), 0);
}
