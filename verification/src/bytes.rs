//! Executable helpers on byte strings: cloning and lexicographic comparison.

use vstd::prelude::*;

use crate::order::lex_lt;

verus! {

/// A byte string viewed deeply is the same sequence as its shallow view.
pub broadcast proof fn lemma_bytes_deep_view(v: &Vec<u8>)
    ensures
        #[trigger] v.deep_view() == v@,
{
    assert(v.deep_view() =~= v@);
}

/// The deep view of each element of a sequence.
pub open spec fn seq_dv<T: DeepView>(s: Seq<T>) -> Seq<T::V> {
    Seq::new(s.len(), |i: int| s[i].deep_view())
}

/// A vector viewed deeply is its shallow view taken element by element.
pub broadcast proof fn lemma_vec_dv<T: DeepView>(v: &Vec<T>)
    ensures
        #[trigger] v.deep_view() == seq_dv(v@),
{
    assert(v.deep_view() =~= seq_dv(v@));
}

/// Appending an element appends its deep view.
pub proof fn lemma_seq_dv_push<T: DeepView>(s: Seq<T>, x: T)
    ensures
        seq_dv(s.push(x)) == seq_dv(s).push(x.deep_view()),
{
    assert(seq_dv(s.push(x)) =~= seq_dv(s).push(x.deep_view()));
}

/// A copy of a byte string.
pub fn clone_bytes(v: &Vec<u8>) -> (r: Vec<u8>)
    ensures
        r@ == v@,
{
    let mut r: Vec<u8> = Vec::new();
    let mut i: usize = 0;
    while i < v.len()
        invariant
            i <= v@.len(),
            r@ == v@.take(i as int),
        decreases v@.len() - i,
    {
        r.push(v[i]);
        assert(r@ =~= v@.take(i + 1));
        i = i + 1;
    }
    assert(r@ =~= v@);
    r
}

/// The big-endian bytes of a 64-bit integer, most significant byte first.
pub open spec fn be_bytes(x: u64) -> Seq<u8> {
    Seq::new(8, |i: int| (x >> ((56 - 8 * i) as u64)) as u8)
}

/// The big-endian value of a byte string.
pub open spec fn be_value(b: Seq<u8>) -> nat
    decreases b.len(),
{
    if b.len() == 0 {
        0
    } else {
        be_value(b.drop_last()) * 256 + b.last() as nat
    }
}

/// 256 to the `n`-th power.
pub open spec fn pow256(n: nat) -> nat
    decreases n,
{
    if n == 0 {
        1
    } else {
        256 * pow256((n - 1) as nat)
    }
}

/// Powers of 256 are positive.
pub proof fn lemma_pow256_pos(n: nat)
    ensures
        pow256(n) >= 1,
    decreases n,
{
    if n > 0 {
        lemma_pow256_pos((n - 1) as nat);
    }
}

/// Powers of 256 grow with the exponent.
pub proof fn lemma_pow256_mono(a: nat, b: nat)
    requires
        a <= b,
    ensures
        pow256(a) <= pow256(b),
    decreases b,
{
    if a < b {
        lemma_pow256_mono(a, (b - 1) as nat);
        lemma_pow256_pos((b - 1) as nat);
        assert(pow256(b) == 256 * pow256((b - 1) as nat));
    }
}

/// A byte string's big-endian value is below 256 to its length.
pub proof fn lemma_be_value_bound(b: Seq<u8>)
    ensures
        be_value(b) < pow256(b.len()),
    decreases b.len(),
{
    if b.len() > 0 {
        lemma_be_value_bound(b.drop_last());
        assert(be_value(b.drop_last()) * 256 + 255 < 256 * pow256(b.drop_last().len()))
            by (nonlinear_arith)
            requires
                be_value(b.drop_last()) < pow256(b.drop_last().len()),
        ;
    }
}

/// The key a 64-bit integer stands for: its big-endian bytes, so that the
/// numeric order and the lexicographic order of keys agree.
pub fn u64_key(x: u64) -> (r: Vec<u8>)
    ensures
        r@ == be_bytes(x),
        r@.len() == 8,
{
    let mut r: Vec<u8> = Vec::new();
    r.push((x >> 56u64) as u8);
    r.push((x >> 48u64) as u8);
    r.push((x >> 40u64) as u8);
    r.push((x >> 32u64) as u8);
    r.push((x >> 24u64) as u8);
    r.push((x >> 16u64) as u8);
    r.push((x >> 8u64) as u8);
    r.push(x as u8);
    proof {
        assert(x as u8 == (x >> 0u64) as u8) by (bit_vector);
        assert(r@ =~= be_bytes(x));
    }
    r
}

/// On eight-byte strings, the lexicographic order is decided byte by byte.
proof fn lemma_lex_lt_eight(a: Seq<u8>, b: Seq<u8>)
    requires
        a.len() == 8,
        b.len() == 8,
    ensures
        lex_lt(a, b) <==> ((a[0] < b[0]) || (a[0] == b[0] && a[1] < b[1]) || (a[0] == b[0] && a[1] == b[1] && a[2] < b[2]) || (a[0] == b[0] && a[1] == b[1] && a[2] == b[2] && a[3] < b[3]) || (a[0] == b[0] && a[1] == b[1] && a[2] == b[2] && a[3] == b[3] && a[4] < b[4]) || (a[0] == b[0] && a[1] == b[1] && a[2] == b[2] && a[3] == b[3] && a[4] == b[4] && a[5] < b[5]) || (a[0] == b[0] && a[1] == b[1] && a[2] == b[2] && a[3] == b[3] && a[4] == b[4] && a[5] == b[5] && a[6] < b[6]) || (a[0] == b[0] && a[1] == b[1] && a[2] == b[2] && a[3] == b[3] && a[4] == b[4] && a[5] == b[5] && a[6] == b[6] && a[7] < b[7])),
{
    lemma_lex_suffix(a, b, 0);
    assert(a.skip(0) =~= a);
    assert(b.skip(0) =~= b);
    reveal_with_fuel(lex_suffix_lt, 9);
}

/// The lexicographic order of the suffixes from position `i` is the suffix
/// comparison written out byte by byte.
proof fn lemma_lex_suffix(a: Seq<u8>, b: Seq<u8>, i: int)
    requires
        a.len() == 8,
        b.len() == 8,
        0 <= i <= 8,
    ensures
        lex_lt(a.skip(i), b.skip(i)) <==> lex_suffix_lt(a, b, i),
    decreases 8 - i,
{
    if i == 8 {
        assert(!lex_lt(a.skip(8), b.skip(8)));
    } else {
        lemma_lex_suffix(a, b, i + 1);
        assert(a.skip(i).skip(1) =~= a.skip(i + 1));
        assert(b.skip(i).skip(1) =~= b.skip(i + 1));
        assert(a.skip(i)[0] == a[i]);
        assert(b.skip(i)[0] == b[i]);
    }
}

/// Whether the suffixes of two eight-byte strings from position `i` compare
/// strictly below, written out byte by byte.
spec fn lex_suffix_lt(a: Seq<u8>, b: Seq<u8>, i: int) -> bool
    decreases 8 - i,
{
    if i >= 8 {
        false
    } else {
        a[i] < b[i] || (a[i] == b[i] && lex_suffix_lt(a, b, i + 1))
    }
}

/// 256 to the `n`-th power is 2 to the `8n`-th.
proof fn lemma_pow256_is_pow2(n: nat)
    ensures
        pow256(n) == vstd::arithmetic::power2::pow2(8 * n),
    decreases n,
{
    vstd::arithmetic::power2::lemma2_to64();
    if n > 0 {
        lemma_pow256_is_pow2((n - 1) as nat);
        vstd::arithmetic::power2::lemma_pow2_adds(8, 8 * (n - 1) as nat);
    }
}

/// The first `k` bytes of a big-endian key carry the integer's high `k`
/// bytes.
proof fn lemma_codec_prefix(x: u64, k: int)
    requires
        0 <= k <= 8,
    ensures
        be_value(be_bytes(x).take(k)) == (x as nat) / pow256((8 - k) as nat),
    decreases k,
{
    let a = be_bytes(x);
    vstd::arithmetic::power2::lemma2_to64();
    vstd::arithmetic::power2::lemma2_to64_rest();
    if k == 0 {
        assert(a.take(0) =~= Seq::<u8>::empty());
        lemma_pow256_is_pow2(8);
        vstd::arithmetic::div_mod::lemma_basic_div(x as int, pow256(8) as int);
    } else {
        lemma_codec_prefix(x, k - 1);
        let t = a.take(k);
        assert(t.drop_last() =~= a.take(k - 1));
        assert(t.last() == a[k - 1]);
        let s = (64 - 8 * k) as nat;
        let d = vstd::arithmetic::power2::pow2(s);
        vstd::arithmetic::power2::lemma_pow2_pos(s);
        lemma_pow256_is_pow2((8 - k) as nat);
        assert(8 * (8 - k) as nat == s);
        assert(pow256((8 - k) as nat) == d);
        assert(pow256((8 - (k - 1)) as nat) == 256 * d);
        assert(a[k - 1] == (x >> ((56 - 8 * (k - 1)) as u64)) as u8);
        assert(56 - 8 * (k - 1) == s);
        vstd::bits::lemma_u64_shr_is_div(x, s as u64);
        let v = x >> (s as u64);
        assert(v as nat == (x as nat) / d);
        let q = (x as nat) / d;
        assert((v as u8) as u64 == v % 256u64) by (bit_vector);
        assert((v as u8) as nat == q % 256);
        vstd::arithmetic::div_mod::lemma_div_denominator(x as int, d as int, 256);
        assert((x as nat) / (256 * d) == q / 256);
        vstd::arithmetic::div_mod::lemma_fundamental_div_mod(q as int, 256);
        assert(be_value(t) == be_value(a.take(k - 1)) * 256 + (a[k - 1]) as nat);
        assert(be_value(a.take(k - 1)) == q / 256);
        assert(q == 256 * (q / 256) + q % 256);
    }
}

/// A big-endian key stands for the integer it was made from: decoding the
/// encoding gives the integer back.
pub proof fn lemma_key_codec(x: u64)
    ensures
        be_value(be_bytes(x)) == x,
{
    lemma_codec_prefix(x, 8);
    assert(be_bytes(x).take(8) =~= be_bytes(x));
    assert(pow256(0) == 1);
    assert((x as nat) / 1 == x as nat);
    assert(be_value(be_bytes(x).take(8)) == (x as nat) / pow256(0));
}

/// Big-endian eight-byte keys order exactly as the integers they stand for:
/// the store's lexicographic key order agrees with the numeric order.
pub proof fn lemma_u64_key_order(x: u64, y: u64)
    ensures
        lex_lt(be_bytes(x), be_bytes(y)) <==> x < y,
{
    let a = be_bytes(x);
    let b = be_bytes(y);
    lemma_lex_lt_eight(a, b);
    assert((x < y) <==> ((((x >> 56u64) as u8) < ((y >> 56u64) as u8))
        || (((x >> 56u64) as u8) == ((y >> 56u64) as u8) && ((x >> 48u64) as u8) < ((y >> 48u64) as u8))
        || (((x >> 56u64) as u8) == ((y >> 56u64) as u8) && ((x >> 48u64) as u8) == ((y >> 48u64) as u8) && ((x >> 40u64) as u8) < ((y >> 40u64) as u8))
        || (((x >> 56u64) as u8) == ((y >> 56u64) as u8) && ((x >> 48u64) as u8) == ((y >> 48u64) as u8) && ((x >> 40u64) as u8) == ((y >> 40u64) as u8) && ((x >> 32u64) as u8) < ((y >> 32u64) as u8))
        || (((x >> 56u64) as u8) == ((y >> 56u64) as u8) && ((x >> 48u64) as u8) == ((y >> 48u64) as u8) && ((x >> 40u64) as u8) == ((y >> 40u64) as u8) && ((x >> 32u64) as u8) == ((y >> 32u64) as u8) && ((x >> 24u64) as u8) < ((y >> 24u64) as u8))
        || (((x >> 56u64) as u8) == ((y >> 56u64) as u8) && ((x >> 48u64) as u8) == ((y >> 48u64) as u8) && ((x >> 40u64) as u8) == ((y >> 40u64) as u8) && ((x >> 32u64) as u8) == ((y >> 32u64) as u8) && ((x >> 24u64) as u8) == ((y >> 24u64) as u8) && ((x >> 16u64) as u8) < ((y >> 16u64) as u8))
        || (((x >> 56u64) as u8) == ((y >> 56u64) as u8) && ((x >> 48u64) as u8) == ((y >> 48u64) as u8) && ((x >> 40u64) as u8) == ((y >> 40u64) as u8) && ((x >> 32u64) as u8) == ((y >> 32u64) as u8) && ((x >> 24u64) as u8) == ((y >> 24u64) as u8) && ((x >> 16u64) as u8) == ((y >> 16u64) as u8) && ((x >> 8u64) as u8) < ((y >> 8u64) as u8))
        || (((x >> 56u64) as u8) == ((y >> 56u64) as u8) && ((x >> 48u64) as u8) == ((y >> 48u64) as u8) && ((x >> 40u64) as u8) == ((y >> 40u64) as u8) && ((x >> 32u64) as u8) == ((y >> 32u64) as u8) && ((x >> 24u64) as u8) == ((y >> 24u64) as u8) && ((x >> 16u64) as u8) == ((y >> 16u64) as u8) && ((x >> 8u64) as u8) == ((y >> 8u64) as u8) && ((x >> 0u64) as u8) < ((y >> 0u64) as u8)))) by (bit_vector);
    assert(a[0] == (x >> 56u64) as u8);
    assert(b[0] == (y >> 56u64) as u8);
    assert(a[1] == (x >> 48u64) as u8);
    assert(b[1] == (y >> 48u64) as u8);
    assert(a[2] == (x >> 40u64) as u8);
    assert(b[2] == (y >> 40u64) as u8);
    assert(a[3] == (x >> 32u64) as u8);
    assert(b[3] == (y >> 32u64) as u8);
    assert(a[4] == (x >> 24u64) as u8);
    assert(b[4] == (y >> 24u64) as u8);
    assert(a[5] == (x >> 16u64) as u8);
    assert(b[5] == (y >> 16u64) as u8);
    assert(a[6] == (x >> 8u64) as u8);
    assert(b[6] == (y >> 8u64) as u8);
    assert(a[7] == (x >> 0u64) as u8);
    assert(b[7] == (y >> 0u64) as u8);
}

/// The 64-bit integer an eight-byte key stands for.
pub fn u64_from_key(k: &Vec<u8>) -> (x: u64)
    requires
        k@.len() == 8,
    ensures
        x as nat == be_value(k@),
{
    let mut x: u64 = 0;
    let mut i: usize = 0;
    while i < 8
        invariant
            i <= 8,
            k@.len() == 8,
            x as nat == be_value(k@.take(i as int)),
            (x as nat) < pow256(i as nat),
        decreases 8 - i,
    {
        proof {
            lemma_pow256_mono(i as nat, 7);
            assert(pow256(7) == 0x100000000000000) by {
                reveal_with_fuel(pow256, 8);
            }
            assert(k@.take(i + 1).drop_last() =~= k@.take(i as int));
            assert(k@.take(i + 1).last() == k@[i as int]);
            lemma_be_value_bound(k@.take(i + 1));
        }
        x = x * 256 + (k[i] as u64);
        i = i + 1;
    }
    proof {
        assert(k@.take(8) =~= k@);
    }
    x
}

/// The outcome of comparing two byte strings.
pub enum Cmp {
    Lt,
    Eq,
    Gt,
}

/// With the first `i` bytes equal, the order is decided by the rest.
proof fn lemma_lex_skip(a: Seq<u8>, b: Seq<u8>, i: int)
    requires
        0 <= i <= a.len(),
        i <= b.len(),
        forall|j: int| 0 <= j < i ==> a[j] == b[j],
    ensures
        lex_lt(a, b) <==> lex_lt(a.skip(i), b.skip(i)),
    decreases i,
{
    if i == 0 {
        assert(a.skip(0) =~= a);
        assert(b.skip(0) =~= b);
    } else {
        assert(a[0] == b[0]);
        assert forall|j: int| 0 <= j < i - 1 implies a.skip(1)[j] == b.skip(1)[j] by {
            assert(a.skip(1)[j] == a[j + 1]);
            assert(b.skip(1)[j] == b[j + 1]);
        }
        lemma_lex_skip(a.skip(1), b.skip(1), i - 1);
        assert(a.skip(1).skip(i - 1) =~= a.skip(i));
        assert(b.skip(1).skip(i - 1) =~= b.skip(i));
    }
}

/// Compares two byte strings lexicographically.
pub fn lex_compare(a: &Vec<u8>, b: &Vec<u8>) -> (c: Cmp)
    ensures
        c is Lt <==> lex_lt(a@, b@),
        c is Eq <==> a@ == b@,
        c is Gt <==> lex_lt(b@, a@),
{
    proof {
        crate::order::lemma_lex_trichotomy(a@, b@);
    }
    let n = if a.len() < b.len() {
        a.len()
    } else {
        b.len()
    };
    let mut i: usize = 0;
    while i < n
        invariant
            i <= n,
            n <= a@.len(),
            n <= b@.len(),
            n == if a@.len() < b@.len() { a@.len() } else { b@.len() },
            forall|j: int| 0 <= j < i ==> a@[j] == b@[j],
        decreases n - i,
    {
        let x = a[i];
        let y = b[i];
        if x < y {
            proof {
                lemma_lex_skip(a@, b@, i as int);
                lemma_lex_skip(b@, a@, i as int);
            }
            return Cmp::Lt;
        }
        if x > y {
            proof {
                lemma_lex_skip(a@, b@, i as int);
                lemma_lex_skip(b@, a@, i as int);
            }
            return Cmp::Gt;
        }
        i = i + 1;
    }
    proof {
        lemma_lex_skip(a@, b@, n as int);
        lemma_lex_skip(b@, a@, n as int);
    }
    if a.len() < b.len() {
        Cmp::Lt
    } else if a.len() > b.len() {
        Cmp::Gt
    } else {
        assert(a@ =~= b@);
        Cmp::Eq
    }
}

} // verus!
