//! The fixture model: encoding widths and exact decode round trips.

use stable_map_bench::fixture::{DecodeError, Fixture, FixtureKind};
use stable_map_bench::ident::identifier_key;
use stable_map_bench::rng::Prng;

#[test]
fn bounded_encode_width_exact_and_round_trip() {
    let kind = FixtureKind::Bounded { width: 16 };
    let mut rng = Prng::from_seed(0);
    let f = Fixture::random(kind, &mut rng);
    let encoded = f.encode();
    assert_eq!(encoded.len(), 16);
    let back = Fixture::decode(kind, encoded).unwrap();
    assert_eq!(back.kind, f.kind);
    assert_eq!(back.bytes, f.bytes);
}

#[test]
fn bounded_zero_width_is_legal() {
    let kind = FixtureKind::Bounded { width: 0 };
    let mut rng = Prng::from_seed(0);
    let f = Fixture::random(kind, &mut rng);
    let encoded = f.encode();
    assert_eq!(encoded.len(), 0);
    let back = Fixture::decode(kind, encoded).unwrap();
    assert_eq!(back.bytes, f.bytes);
}

#[test]
fn unbounded_encode_within_capacity_and_round_trip() {
    let kind = FixtureKind::Unbounded { capacity: 128 };
    for seed in 0..20u64 {
        let mut rng = Prng::from_seed(seed);
        let f = Fixture::random(kind, &mut rng);
        let encoded = f.encode();
        assert!(encoded.len() <= 128);
        let back = Fixture::decode(kind, encoded).unwrap();
        assert_eq!(back.kind, f.kind);
        assert_eq!(back.bytes, f.bytes);
    }
}

#[test]
fn unbounded_random_is_deterministic() {
    let kind = FixtureKind::Unbounded { capacity: 64 };
    let mut a = Prng::from_seed(11);
    let mut b = Prng::from_seed(11);
    let fa = Fixture::random(kind, &mut a);
    let fb = Fixture::random(kind, &mut b);
    assert_eq!(fa.bytes, fb.bytes);
}

#[test]
fn decode_wrong_width_is_rejected() {
    let kind = FixtureKind::Bounded { width: 4 };
    let r = Fixture::decode(kind, vec![1, 2, 3, 4, 5]);
    assert_eq!(r.unwrap_err(), DecodeError::WrongWidth);
}

#[test]
fn decode_over_capacity_is_rejected() {
    let kind = FixtureKind::Unbounded { capacity: 2 };
    let r = Fixture::decode(kind, vec![1, 2, 3]);
    assert_eq!(r.unwrap_err(), DecodeError::OverCapacity);
}

#[test]
fn identifier_key_is_the_payload() {
    let kind = FixtureKind::Bounded { width: 29 };
    let mut rng = Prng::from_seed(5);
    let f = Fixture::random(kind, &mut rng);
    let key = identifier_key(&f);
    assert_eq!(key, f.bytes);
}

#[test]
fn identifier_key_empty_payload() {
    let f = Fixture {
        kind: FixtureKind::Bounded { width: 0 },
        bytes: Vec::new(),
    };
    let key = identifier_key(&f);
    assert!(key.is_empty());
}
