//! The Shabal-256 hash primitive, provided by an outside crate.
//!
//! The digest itself is not restated here: it is named by
//! [`shabal256_of`], and everything the library proves about scores and
//! scoop numbers is stated over that name.

use vstd::prelude::*;

verus! {

/// The Shabal-256 digest of a byte sequence: 32 bytes, a function of the
/// input alone.
pub uninterp spec fn shabal256_of(input: Seq<u8>) -> Seq<u8>;

/// Relies on `shabal::Shabal256` (through the `digest` crate's `Digest`
/// trait): the Shabal-256 digest of the input, always 32 bytes and
/// determined by the input bytes alone.
#[verifier::external_body]
pub fn shabal256(input: &[u8]) -> (r: [u8; 32])
    ensures
        r@ == shabal256_of(input@),
        r@.len() == 32,
{
    let digest = <shabal::Shabal256 as shabal::Digest>::digest(input);
    let mut out = [0u8; 32];
    out.copy_from_slice(&digest);
    out
}

} // verus!
