//! Integer keys: big-endian encoding, its inverse, and byte-string
//! comparison.

use stable_map_bench::bytes::{lex_compare, u64_from_key, u64_key, Cmp};

#[test]
fn u64_key_is_big_endian() {
    let k = u64_key(0x0102030405060708);
    assert_eq!(k, vec![1, 2, 3, 4, 5, 6, 7, 8]);
    assert_eq!(u64_key(0), vec![0; 8]);
    assert_eq!(u64_key(u64::MAX), vec![0xff; 8]);
}

#[test]
fn u64_key_round_trip() {
    for x in [0u64, 1, 19, 255, 256, 0xdead_beef, u64::MAX] {
        assert_eq!(u64_from_key(&u64_key(x)), x);
    }
}

#[test]
fn u64_key_preserves_order() {
    let samples = [0u64, 1, 2, 19, 255, 256, 65535, 1 << 32, u64::MAX];
    for &a in &samples {
        for &b in &samples {
            assert_eq!(a.cmp(&b), u64_key(a).cmp(&u64_key(b)));
        }
    }
}

#[test]
fn lex_compare_orders_byte_strings() {
    assert!(matches!(lex_compare(&vec![], &vec![]), Cmp::Eq));
    assert!(matches!(lex_compare(&vec![], &vec![0]), Cmp::Lt));
    assert!(matches!(lex_compare(&vec![1], &vec![]), Cmp::Gt));
    assert!(matches!(lex_compare(&vec![1, 2], &vec![1, 2, 0]), Cmp::Lt));
    assert!(matches!(lex_compare(&vec![1, 3], &vec![1, 2, 9]), Cmp::Gt));
    assert!(matches!(lex_compare(&vec![5, 5], &vec![5, 5]), Cmp::Eq));
}
