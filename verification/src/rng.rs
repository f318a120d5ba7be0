//! The deterministic random source.
//!
//! A seeded generator of the `tiny_rng` engine (xorshift128+) drives all data
//! generation. Its state after any number of draws is a pure function of the
//! seed, so the whole stream is named by `word_at(seed, index)`: the value of
//! the engine's `index`-th 64-bit draw from `seed`. Everything narrower than
//! a word is derived in verified code exactly as the engine derives it: a
//! 32-bit draw is the high half of a word, a byte draw truncates a 32-bit
//! draw.

use vstd::prelude::*;

verus! {

#[verifier::external_type_specification]
#[verifier::external_body]
pub struct ExRng(tiny_rng::Rng);

/// The engine's `index`-th 64-bit draw from `seed`.
pub uninterp spec fn word_at(seed: u64, index: nat) -> u64;

/// The engine's `index`-th 32-bit draw: the high half of the word.
pub open spec fn u32_at(seed: u64, index: nat) -> u32 {
    (word_at(seed, index) >> 32) as u32
}

/// The engine's `index`-th byte draw: a 32-bit draw truncated.
pub open spec fn byte_at(seed: u64, index: nat) -> u8 {
    u32_at(seed, index) as u8
}

/// `n` byte draws starting at draw `start`.
pub open spec fn bytes_from(seed: u64, start: nat, n: nat) -> Seq<u8> {
    Seq::new(n, |i: int| byte_at(seed, (start + i) as nat))
}

/// Relies on `Rand::from_seed` for `tiny_rng::Rng`: the engine's state is a
/// pure function of the seed.
#[verifier::external_body]
fn engine_from_seed(seed: u64) -> (r: tiny_rng::Rng) {
    <tiny_rng::Rng as tiny_rng::Rand>::from_seed(seed)
}

/// A deterministic generator: the engine's state plus the seed and the count
/// of draws made so far, which together determine every draw to come.
pub struct Prng {
    inner: tiny_rng::Rng,
    seed: Ghost<u64>,
    index: Ghost<nat>,
}

impl Prng {
    /// The seed this generator was made from.
    pub closed spec fn seed(&self) -> u64 {
        self.seed@
    }

    /// How many 64-bit draws were made so far.
    pub closed spec fn index(&self) -> nat {
        self.index@
    }

    /// A fresh generator, about to make its first draw.
    pub fn from_seed(seed: u64) -> (r: Prng)
        ensures
            r.seed() == seed,
            r.index() == 0,
    {
        Prng { inner: engine_from_seed(seed), seed: Ghost(seed), index: Ghost(0nat) }
    }

    /// Relies on `Rand::rand_u64` for `tiny_rng::Rng` (xorshift128+): each
    /// draw is a pure function of the seed and of how many draws preceded it.
    #[verifier::external_body]
    pub fn next_u64(&mut self) -> (w: u64)
        ensures
            final(self).seed() == old(self).seed(),
            final(self).index() == old(self).index() + 1,
            w == word_at(old(self).seed(), old(self).index()),
    {
        tiny_rng::Rand::rand_u64(&mut self.inner)
    }

    /// A 32-bit draw: the high half of the next word, as the engine's own
    /// 32-bit draw takes it.
    pub fn next_u32(&mut self) -> (x: u32)
        ensures
            final(self).seed() == old(self).seed(),
            final(self).index() == old(self).index() + 1,
            x == u32_at(old(self).seed(), old(self).index()),
    {
        let w = self.next_u64();
        (w >> 32) as u32
    }

    /// A byte draw: a 32-bit draw truncated, as the engine's own byte draw
    /// takes it.
    pub fn next_u8(&mut self) -> (b: u8)
        ensures
            final(self).seed() == old(self).seed(),
            final(self).index() == old(self).index() + 1,
            b == byte_at(old(self).seed(), old(self).index()),
    {
        let x = self.next_u32();
        x as u8
    }

    /// `n` random bytes, one draw each.
    pub fn fill_bytes(&mut self, n: usize) -> (r: Vec<u8>)
        ensures
            final(self).seed() == old(self).seed(),
            final(self).index() == old(self).index() + n,
            r@ == bytes_from(old(self).seed(), old(self).index(), n as nat),
    {
        let ghost seed = self.seed();
        let ghost start = self.index();
        let mut r: Vec<u8> = Vec::new();
        let mut i: usize = 0;
        while i < n
            invariant
                i <= n,
                self.seed() == seed,
                self.index() == start + i,
                r@ == bytes_from(seed, start, i as nat),
            decreases n - i,
        {
            let b = self.next_u8();
            r.push(b);
            proof {
                assert(r@ =~= bytes_from(seed, start, (i + 1) as nat));
            }
            i = i + 1;
        }
        r
    }
}

} // verus!
