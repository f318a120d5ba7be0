//! The deterministic random source: same seed, same stream, and the stream
//! matches the underlying engine draw for draw.

use stable_map_bench::fixture::FixtureKind;
use stable_map_bench::rng::Prng;
use stable_map_bench::workload::{generate, generate_blocks, zero_blocks};
use tiny_rng::{Rand, Rng};

#[test]
fn fill_bytes_same_seed_same_bytes() {
    let mut a = Prng::from_seed(7);
    let mut b = Prng::from_seed(7);
    assert_eq!(a.fill_bytes(64), b.fill_bytes(64));
}

#[test]
fn fill_bytes_different_seed_differs() {
    let mut a = Prng::from_seed(0);
    let mut b = Prng::from_seed(1);
    assert_ne!(a.fill_bytes(64), b.fill_bytes(64));
}

#[test]
fn word_stream_matches_engine() {
    let mut ours = Prng::from_seed(123);
    let mut engine = Rng::from_seed(123);
    for _ in 0..100 {
        assert_eq!(ours.next_u64(), engine.rand_u64());
    }
}

#[test]
fn narrow_draws_match_engine() {
    let mut ours = Prng::from_seed(99);
    let mut engine = Rng::from_seed(99);
    for _ in 0..50 {
        assert_eq!(ours.next_u32(), engine.rand_u32());
    }
    let mut ours = Prng::from_seed(100);
    let mut engine = Rng::from_seed(100);
    for _ in 0..50 {
        assert_eq!(ours.next_u8(), engine.rand_u8());
    }
}

#[test]
fn generate_same_arguments_same_workload() {
    let kk = FixtureKind::Bounded { width: 8 };
    let vk = FixtureKind::Unbounded { capacity: 32 };
    let a = generate(kk, vk, 0, 200);
    let b = generate(kk, vk, 0, 200);
    assert_eq!(a, b);
    assert_eq!(a.len(), 200);
}

#[test]
fn generate_empty_workload() {
    let kk = FixtureKind::Bounded { width: 8 };
    let vk = FixtureKind::Bounded { width: 8 };
    let a = generate(kk, vk, 5, 0);
    assert!(a.is_empty());
}

#[test]
fn generate_blocks_deterministic_and_sized() {
    let a = generate_blocks(0, 10, 1000);
    let b = generate_blocks(0, 10, 1000);
    assert_eq!(a, b);
    assert_eq!(a.len(), 10);
    for block in &a {
        assert_eq!(block.len(), 1000);
    }
}

#[test]
fn zero_blocks_are_zero_filled() {
    let blocks = zero_blocks(3, 5);
    assert_eq!(blocks, vec![vec![0u8; 5]; 3]);
    assert!(zero_blocks(0, 7).is_empty());
    assert_eq!(zero_blocks(2, 0), vec![Vec::<u8>::new(), Vec::<u8>::new()]);
}

#[test]
fn generate_bounded_widths_exact() {
    let kk = FixtureKind::Bounded { width: 4 };
    let vk = FixtureKind::Bounded { width: 128 };
    let w = generate(kk, vk, 3, 50);
    for (k, v) in &w {
        assert_eq!(k.len(), 4);
        assert_eq!(v.len(), 128);
    }
}

#[test]
fn generate_unbounded_lengths_within_capacity() {
    let kk = FixtureKind::Unbounded { capacity: 32 };
    let vk = FixtureKind::Unbounded { capacity: 128 };
    let w = generate(kk, vk, 3, 50);
    for (k, v) in &w {
        assert!(k.len() <= 32);
        assert!(v.len() <= 128);
    }
}
