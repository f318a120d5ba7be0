//! Deterministic workload generation.
//!
//! A workload is the sequence of encoded (key, value) pairs a scenario feeds
//! to the store. It is a pure function of the seed, the two fixture kinds and
//! the count, written out by the spec functions here; the generator is proved
//! to return exactly that sequence, which is what makes every scenario
//! reproducible.

use vstd::prelude::*;

use crate::fixture::{drawn_payload, drawn_steps, Fixture, FixtureKind};
use crate::rng::{bytes_from, Prng};

verus! {

broadcast use crate::bytes::lemma_bytes_deep_view, crate::bytes::lemma_vec_dv;

/// How many draws one (key, value) pair takes, starting at this point of the
/// stream: the key's draws, then the value's.
pub open spec fn pair_steps(kk: FixtureKind, vk: FixtureKind, seed: u64, start: nat) -> nat {
    drawn_steps(kk, seed, start) + drawn_steps(vk, seed, start + drawn_steps(kk, seed, start))
}

/// At which draw the `i`-th pair of a workload starts.
pub open spec fn pair_start(kk: FixtureKind, vk: FixtureKind, seed: u64, i: nat) -> nat
    decreases i,
{
    if i == 0 {
        0
    } else {
        let before = pair_start(kk, vk, seed, (i - 1) as nat);
        before + pair_steps(kk, vk, seed, before)
    }
}

/// The `i`-th (key, value) pair of a workload, in encoded form.
pub open spec fn pair_at(kk: FixtureKind, vk: FixtureKind, seed: u64, i: nat) -> (
    Seq<u8>,
    Seq<u8>,
) {
    let start = pair_start(kk, vk, seed, i);
    let kb = drawn_payload(kk, seed, start);
    let vb = drawn_payload(vk, seed, start + drawn_steps(kk, seed, start));
    (kb, vb)
}

/// The whole workload: `n` encoded pairs drawn from one seed.
pub open spec fn workload(kk: FixtureKind, vk: FixtureKind, seed: u64, n: nat) -> Seq<
    (Seq<u8>, Seq<u8>),
> {
    Seq::new(n, |i: int| pair_at(kk, vk, seed, i as nat))
}

/// Generates the workload of `n` encoded (key, value) pairs for the given
/// kinds and seed.
pub fn generate(kk: FixtureKind, vk: FixtureKind, seed: u64, n: usize) -> (r: Vec<
    (Vec<u8>, Vec<u8>),
>)
    requires
        kk matches FixtureKind::Unbounded { capacity } ==> capacity < usize::MAX,
        vk matches FixtureKind::Unbounded { capacity } ==> capacity < usize::MAX,
    ensures
        r.deep_view() == workload(kk, vk, seed, n as nat),
{
    let ghost target = workload(kk, vk, seed, n as nat);
    let mut rng = Prng::from_seed(seed);
    let mut out: Vec<(Vec<u8>, Vec<u8>)> = Vec::new();
    proof {
        assert(crate::bytes::seq_dv(out@) =~= target.take(0));
    }
    let mut i: usize = 0;
    while i < n
        invariant
            i <= n,
            kk matches FixtureKind::Unbounded { capacity } ==> capacity < usize::MAX,
            vk matches FixtureKind::Unbounded { capacity } ==> capacity < usize::MAX,
            rng.seed() == seed,
            rng.index() == pair_start(kk, vk, seed, i as nat),
            target == workload(kk, vk, seed, n as nat),
            crate::bytes::seq_dv(out@) == target.take(i as int),
        decreases n - i,
    {
        let key = Fixture::random(kk, &mut rng);
        let value = Fixture::random(vk, &mut rng);
        let ghost pre = out@;
        let pair = (key.into_bytes(), value.into_bytes());
        let ghost gp = pair;
        proof {
            assert(pair_start(kk, vk, seed, (i + 1) as nat)
                == pair_start(kk, vk, seed, i as nat)
                    + pair_steps(kk, vk, seed, pair_start(kk, vk, seed, i as nat)));
            assert(gp.deep_view() == pair_at(kk, vk, seed, i as nat));
        }
        out.push(pair);
        proof {
            crate::bytes::lemma_seq_dv_push(pre, gp);
            assert(target[i as int] == pair_at(kk, vk, seed, i as nat));
            assert(target.take(i as int).push(target[i as int]) =~= target.take(i + 1));
        }
        i = i + 1;
    }
    proof {
        assert(target.take(n as int) =~= target);
        assert(out.deep_view() == crate::bytes::seq_dv(out@));
    }
    out
}

/// `count` zero-filled payload blocks of `size` bytes each.
pub open spec fn zero_block_seq(count: nat, size: nat) -> Seq<Seq<u8>> {
    Seq::new(count, |i: int| Seq::new(size, |j: int| 0u8))
}

/// Builds `count` zero-filled payload blocks of `size` bytes each, the
/// payloads a traversal scenario stores.
pub fn zero_blocks(count: usize, size: usize) -> (r: Vec<Vec<u8>>)
    ensures
        r.deep_view() == zero_block_seq(count as nat, size as nat),
{
    let ghost target = zero_block_seq(count as nat, size as nat);
    let mut block: Vec<u8> = Vec::new();
    let mut j: usize = 0;
    while j < size
        invariant
            j <= size,
            block@ =~= Seq::new(j as nat, |t: int| 0u8),
        decreases size - j,
    {
        block.push(0u8);
        proof {
            assert(block@ =~= Seq::new((j + 1) as nat, |t: int| 0u8));
        }
        j = j + 1;
    }
    let mut out: Vec<Vec<u8>> = Vec::new();
    proof {
        assert(crate::bytes::seq_dv(out@) =~= target.take(0));
    }
    let mut i: usize = 0;
    while i < count
        invariant
            i <= count,
            block@ == Seq::new(size as nat, |t: int| 0u8),
            target == zero_block_seq(count as nat, size as nat),
            crate::bytes::seq_dv(out@) == target.take(i as int),
        decreases count - i,
    {
        let ghost pre = out@;
        let copy = crate::bytes::clone_bytes(&block);
        let ghost gb = copy;
        proof {
            assert(gb.deep_view() == target[i as int]);
        }
        out.push(copy);
        proof {
            crate::bytes::lemma_seq_dv_push(pre, gb);
            assert(target.take(i as int).push(target[i as int]) =~= target.take(i + 1));
        }
        i = i + 1;
    }
    proof {
        assert(target.take(count as int) =~= target);
        assert(out.deep_view() == crate::bytes::seq_dv(out@));
    }
    out
}

/// The `count` payload blocks of `size` bytes each that one seed yields.
pub open spec fn blocks(seed: u64, count: nat, size: nat) -> Seq<Seq<u8>> {
    Seq::new(count, |i: int| bytes_from(seed, i as nat * size, size))
}

/// Generates `count` random payload blocks of `size` bytes each.
pub fn generate_blocks(seed: u64, count: usize, size: usize) -> (r: Vec<Vec<u8>>)
    ensures
        r.deep_view() == blocks(seed, count as nat, size as nat),
{
    let ghost target = blocks(seed, count as nat, size as nat);
    let mut rng = Prng::from_seed(seed);
    let mut out: Vec<Vec<u8>> = Vec::new();
    proof {
        assert(crate::bytes::seq_dv(out@) =~= target.take(0));
    }
    let mut i: usize = 0;
    while i < count
        invariant
            i <= count,
            rng.seed() == seed,
            rng.index() == i as nat * size as nat,
            target == blocks(seed, count as nat, size as nat),
            crate::bytes::seq_dv(out@) == target.take(i as int),
        decreases count - i,
    {
        let ghost pre = out@;
        proof {
            assert((i + 1) as nat * size as nat == i as nat * size as nat + size as nat)
                by (nonlinear_arith);
        }
        let block = rng.fill_bytes(size);
        let ghost gb = block;
        proof {
            assert(gb.deep_view() == target[i as int]) by {
                assert(gb@ == bytes_from(seed, i as nat * size as nat, size as nat));
            }
        }
        out.push(block);
        proof {
            crate::bytes::lemma_seq_dv_push(pre, gb);
            assert(target.take(i as int).push(target[i as int]) =~= target.take(i + 1));
        }
        i = i + 1;
    }
    proof {
        assert(target.take(count as int) =~= target);
        assert(out.deep_view() == crate::bytes::seq_dv(out@));
    }
    out
}

} // verus!
