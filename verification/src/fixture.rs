//! The type fixture model.
//!
//! A fixture is a test value of a declared kind: *bounded* fixtures carry
//! exactly their width in bytes, *unbounded* fixtures carry up to their
//! capacity. A fixture encodes to its payload bytes unchanged — the byte
//! string itself carries its length — so decoding is exact, and a bounded
//! fixture's encoding has exactly its width. Random construction draws its
//! payload from the deterministic generator; an unbounded fixture first draws
//! one word and takes it modulo capacity plus one as the payload length.

use vstd::prelude::*;

use crate::bytes::clone_bytes;
use crate::rng::{bytes_from, word_at, Prng};

verus! {

/// The kind of a fixture: fixed width, or variable width up to a capacity.
#[derive(Clone, Copy, Debug, PartialEq, Eq, Structural)]
pub enum FixtureKind {
    Bounded { width: usize },
    Unbounded { capacity: usize },
}

/// Why a byte string fails to decode as a fixture.
#[derive(Clone, Copy, Debug, PartialEq, Eq, Structural)]
pub enum DecodeError {
    /// A bounded fixture takes exactly its width in bytes.
    WrongWidth,
    /// An unbounded fixture takes at most its capacity in bytes.
    OverCapacity,
}

/// A test value: its kind and its payload bytes.
#[derive(Debug)]
pub struct Fixture {
    pub kind: FixtureKind,
    pub bytes: Vec<u8>,
}

impl Fixture {
    /// The payload fits the kind: exact width for bounded, at most the
    /// capacity for unbounded.
    pub open spec fn wf(&self) -> bool {
        payload_fits(self.kind, self.bytes@)
    }
}

/// Whether a payload of this length belongs to a fixture of this kind.
pub open spec fn payload_fits(kind: FixtureKind, b: Seq<u8>) -> bool {
    match kind {
        FixtureKind::Bounded { width } => b.len() == width,
        FixtureKind::Unbounded { capacity } => b.len() <= capacity,
    }
}

/// What decoding a byte string under this kind yields: the kind and the
/// payload, exactly when the bytes fit.
pub open spec fn spec_decode(kind: FixtureKind, b: Seq<u8>) -> Option<(FixtureKind, Seq<u8>)> {
    if payload_fits(kind, b) {
        Some((kind, b))
    } else {
        None
    }
}

/// The payload length a random unbounded fixture of this capacity draws at
/// this point of the stream.
pub open spec fn drawn_len(seed: u64, index: nat, capacity: usize) -> nat {
    (word_at(seed, index) as nat) % (capacity as nat + 1)
}

/// The payload a random fixture of this kind draws at this point of the
/// stream.
pub open spec fn drawn_payload(kind: FixtureKind, seed: u64, index: nat) -> Seq<u8> {
    match kind {
        FixtureKind::Bounded { width } => bytes_from(seed, index, width as nat),
        FixtureKind::Unbounded { capacity } => bytes_from(
            seed,
            index + 1,
            drawn_len(seed, index, capacity),
        ),
    }
}

/// How many draws a random fixture of this kind takes at this point of the
/// stream.
pub open spec fn drawn_steps(kind: FixtureKind, seed: u64, index: nat) -> nat {
    match kind {
        FixtureKind::Bounded { width } => width as nat,
        FixtureKind::Unbounded { capacity } => 1 + drawn_len(seed, index, capacity),
    }
}

impl Fixture {
    /// A random fixture of the given kind, drawn from the generator.
    pub fn random(kind: FixtureKind, rng: &mut Prng) -> (r: Fixture)
        requires
            kind matches FixtureKind::Unbounded { capacity } ==> capacity < usize::MAX,
        ensures
            r.kind == kind,
            r.wf(),
            r.bytes@ == drawn_payload(kind, old(rng).seed(), old(rng).index()),
            final(rng).seed() == old(rng).seed(),
            final(rng).index() == old(rng).index()
                + drawn_steps(kind, old(rng).seed(), old(rng).index()),
    {
        match kind {
            FixtureKind::Bounded { width } => {
                let bytes = rng.fill_bytes(width);
                Fixture { kind, bytes }
            },
            FixtureKind::Unbounded { capacity } => {
                let w = rng.next_u64();
                let len = (w % ((capacity as u64) + 1)) as usize;
                let bytes = rng.fill_bytes(len);
                Fixture { kind, bytes }
            },
        }
    }

    /// The fixture's encoding: its payload bytes, unchanged.
    pub fn encode(&self) -> (r: Vec<u8>)
        ensures
            r@ == self.bytes@,
    {
        clone_bytes(&self.bytes)
    }

    /// The fixture's encoding, taking the fixture.
    pub fn into_bytes(self) -> (r: Vec<u8>)
        ensures
            r@ == self.bytes@,
    {
        self.bytes
    }

    /// The fixture a byte string decodes to under this kind: the bytes are
    /// the payload, accepted exactly when they fit the kind.
    pub fn decode(kind: FixtureKind, bytes: Vec<u8>) -> (r: Result<Fixture, DecodeError>)
        ensures
            match r {
                Ok(f) => spec_decode(kind, bytes@) == Some((f.kind, f.bytes@))
                    && f.kind == kind && f.bytes@ == bytes@ && f.wf(),
                Err(e) => spec_decode(kind, bytes@) is None && e == (match kind {
                    FixtureKind::Bounded { .. } => DecodeError::WrongWidth,
                    FixtureKind::Unbounded { .. } => DecodeError::OverCapacity,
                }),
            },
    {
        match kind {
            FixtureKind::Bounded { width } => {
                if bytes.len() == width {
                    Ok(Fixture { kind, bytes })
                } else {
                    Err(DecodeError::WrongWidth)
                }
            },
            FixtureKind::Unbounded { capacity } => {
                if bytes.len() <= capacity {
                    Ok(Fixture { kind, bytes })
                } else {
                    Err(DecodeError::OverCapacity)
                }
            },
        }
    }
}

/// A well-formed bounded fixture's encoding — its payload unchanged — has
/// exactly the fixture's width, and decodes back to the same kind and
/// payload.
pub proof fn lemma_bounded_round_trip(f: &Fixture)
    requires
        f.wf(),
        f.kind is Bounded,
    ensures
        f.kind matches FixtureKind::Bounded { width } ==> f.bytes@.len() == width,
        spec_decode(f.kind, f.bytes@) == Some((f.kind, f.bytes@)),
{
}

/// A well-formed unbounded fixture's encoding — its payload unchanged — has
/// at most the fixture's capacity, and decodes back to the same kind and
/// payload.
pub proof fn lemma_unbounded_round_trip(f: &Fixture)
    requires
        f.wf(),
        f.kind is Unbounded,
    ensures
        f.kind matches FixtureKind::Unbounded { capacity } ==> f.bytes@.len() <= capacity,
        spec_decode(f.kind, f.bytes@) == Some((f.kind, f.bytes@)),
{
}

} // verus!
