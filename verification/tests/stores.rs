//! The stores: the verified in-memory store, the engine's two backends, and
//! their agreement on identical workloads.

use stable_map_bench::fixture::FixtureKind;
use stable_map_bench::phases::{contains_keys, get_keys, pop_first_n, pop_last_n, populate, remove_keys};
use stable_map_bench::stable::{DirectMap, MultiMap};
use stable_map_bench::store::{MapStore, OrderedStore};
use stable_map_bench::vec_store::VecStore;
use stable_map_bench::workload::generate;

fn keys_of(pairs: &[(Vec<u8>, Vec<u8>)]) -> Vec<Vec<u8>> {
    pairs.iter().map(|(k, _)| k.clone()).collect()
}

#[test]
fn vec_store_point_operations() {
    let mut m = VecStore::new();
    assert_eq!(m.len(), 0);
    assert_eq!(m.insert(vec![2], vec![20]), None);
    assert_eq!(m.insert(vec![1], vec![10]), None);
    assert_eq!(m.insert(vec![2], vec![21]), Some(vec![20]));
    assert_eq!(m.len(), 2);
    assert!(m.contains_key(&vec![1]));
    assert!(!m.contains_key(&vec![3]));
    assert_eq!(m.get(&vec![2]), Some(vec![21]));
    assert_eq!(m.remove(&vec![1]), Some(vec![10]));
    assert_eq!(m.remove(&vec![1]), None);
    assert_eq!(m.len(), 1);
}

#[test]
fn engine_map_agrees_with_verified_store() {
    let pairs = generate(
        FixtureKind::Bounded { width: 8 },
        FixtureKind::Unbounded { capacity: 32 },
        0,
        300,
    );
    let mut engine = DirectMap::new();
    let mut reference = VecStore::new();
    populate(&mut engine, &pairs);
    populate(&mut reference, &pairs);
    assert_eq!(engine.len(), reference.len());
    assert_eq!(engine.entries_vec(), reference.entries_vec());
    assert_eq!(engine.entries_vec_rev(), reference.entries_vec_rev());
    assert_eq!(engine.keys_vec(), reference.keys_vec());
    assert_eq!(engine.values_vec(), reference.values_vec());
    let keys = keys_of(&pairs);
    for k in &keys {
        assert_eq!(engine.get(k), reference.get(k));
        assert_eq!(engine.contains_key(k), reference.contains_key(k));
    }
    assert_eq!(engine.pop_first(), reference.pop_first());
    assert_eq!(engine.pop_last(), reference.pop_last());
}

#[test]
fn multiplexed_backend_is_interchangeable() {
    let pairs = generate(
        FixtureKind::Bounded { width: 8 },
        FixtureKind::Bounded { width: 512 },
        0,
        500,
    );
    let mut direct = DirectMap::new();
    let mut multi = MultiMap::new(42);
    populate(&mut direct, &pairs);
    populate(&mut multi, &pairs);
    assert_eq!(direct.len(), multi.len());
    let keys = keys_of(&pairs);
    for k in &keys {
        assert_eq!(direct.get(k), multi.get(k));
        assert!(multi.contains_key(k));
    }
    let removed_direct = remove_keys(&mut direct, &keys);
    let removed_multi = remove_keys(&mut multi, &keys);
    assert_eq!(removed_direct, removed_multi);
    assert_eq!(direct.len(), 0);
    assert_eq!(multi.len(), 0);
}

#[test]
fn populated_store_contains_every_key_and_drains_empty() {
    // Seed 0, ten thousand eight-byte keys against eight-byte values.
    let pairs = generate(
        FixtureKind::Bounded { width: 8 },
        FixtureKind::Bounded { width: 8 },
        0,
        10000,
    );
    let keys = keys_of(&pairs);
    let mut m = DirectMap::new();
    populate(&mut m, &pairs);
    assert_eq!(contains_keys(&m, &keys), 10000);
    assert_eq!(get_keys(&m, &keys), 10000);

    // A nine-byte key can never be in a set of eight-byte keys.
    let absent = vec![0u8; 9];
    assert!(!m.contains_key(&absent));
    // Neither can an eight-byte key that differs from each generated key.
    let mut probe = vec![0u8; 8];
    while keys.contains(&probe) {
        probe[0] = probe[0].wrapping_add(1);
    }
    assert!(!m.contains_key(&probe));

    let removed = remove_keys(&mut m, &keys);
    assert!(removed <= 10000);
    assert_eq!(m.len(), 0);
    assert_eq!(contains_keys(&m, &keys), 0);
}

#[test]
fn pop_first_yields_ascending_keys() {
    let pairs = generate(
        FixtureKind::Bounded { width: 8 },
        FixtureKind::Bounded { width: 4 },
        3,
        100,
    );
    let mut m = VecStore::new();
    populate(&mut m, &pairs);
    let expected = m.entries_vec();
    let mut popped = Vec::new();
    loop {
        match m.pop_first() {
            Some(p) => popped.push(p),
            None => break,
        }
    }
    assert_eq!(popped, expected);
    assert_eq!(m.len(), 0);
}

#[test]
fn pop_last_yields_descending_keys() {
    let pairs = generate(
        FixtureKind::Bounded { width: 8 },
        FixtureKind::Bounded { width: 4 },
        3,
        100,
    );
    let mut m = DirectMap::new();
    populate(&mut m, &pairs);
    let expected = m.entries_vec_rev();
    let mut popped = Vec::new();
    loop {
        match m.pop_last() {
            Some(p) => popped.push(p),
            None => break,
        }
    }
    assert_eq!(popped, expected);
    assert_eq!(m.len(), 0);
}

#[test]
fn pop_phases_count_and_stop_at_empty() {
    let pairs = generate(
        FixtureKind::Bounded { width: 8 },
        FixtureKind::Bounded { width: 0 },
        1,
        50,
    );
    let mut m = DirectMap::new();
    populate(&mut m, &pairs);
    let total = m.len() as usize;
    let front = pop_first_n(&mut m, 10);
    assert_eq!(front, 10);
    let rest = pop_last_n(&mut m, usize::MAX);
    assert_eq!(rest, total - 10);
    assert_eq!(m.len(), 0);
    assert_eq!(pop_first_n(&mut m, 5), 0);
}

#[test]
fn duplicate_keys_in_removal_list_count_once() {
    let mut m = VecStore::new();
    m.insert(vec![1], vec![10]);
    m.insert(vec![2], vec![20]);
    let keys = vec![vec![1], vec![1], vec![3]];
    let found = remove_keys(&mut m, &keys);
    assert_eq!(found, 1);
    assert_eq!(m.len(), 1);
    assert!(m.contains_key(&vec![2]));
}

#[test]
fn zero_width_keys_all_collide() {
    // Every zero-width key is the same empty key, so the store holds one
    // entry however many pairs the workload carries.
    let pairs = generate(
        FixtureKind::Bounded { width: 0 },
        FixtureKind::Bounded { width: 8 },
        0,
        5,
    );
    let mut m = DirectMap::new();
    populate(&mut m, &pairs);
    assert_eq!(m.len(), 1);
    // The surviving value is the last one inserted.
    assert_eq!(m.get(&Vec::new()), Some(pairs[4].1.clone()));
}

#[test]
fn empty_workload_leaves_store_empty() {
    let pairs = Vec::new();
    let mut m = DirectMap::new();
    populate(&mut m, &pairs);
    assert_eq!(m.len(), 0);
    assert!(m.entries_vec().is_empty());
    assert_eq!(m.pop_first(), None);
    assert_eq!(m.pop_last(), None);
}
