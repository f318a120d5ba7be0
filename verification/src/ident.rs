//! Opaque identifier keys.
//!
//! One key family of the matrix stands for opaque principal identifiers: at
//! most 29 bytes, stored by the engine as the identifier's raw byte form.
//! The byte form is produced by the identifier type of the `candid` crate,
//! which round-trips the bytes unchanged; the fixture model sizes the key,
//! the external type validates it.

use vstd::prelude::*;

use crate::fixture::{Fixture, FixtureKind};

verus! {

/// The widest identifier, in bytes.
pub const IDENT_MAX: usize = 29;

/// Relies on `candid::Principal::from_slice` and `Principal::as_slice`: an
/// identifier built from at most 29 bytes hands exactly those bytes back (it
/// panics above 29, which the caller rules out).
#[verifier::external_body]
fn principal_bytes(b: &Vec<u8>) -> (r: Vec<u8>)
    requires
        b@.len() <= 29,
    ensures
        r@ == b@,
{
    candid::Principal::from_slice(b.as_slice()).as_slice().to_vec()
}

/// The key the store holds for an identifier fixture: the identifier's raw
/// byte form, which is the fixture's payload unchanged.
pub fn identifier_key(f: &Fixture) -> (r: Vec<u8>)
    requires
        f.wf(),
        f.kind matches FixtureKind::Bounded { width } && width <= IDENT_MAX,
    ensures
        r@ == f.bytes@,
{
    principal_bytes(&f.bytes)
}

} // verus!
