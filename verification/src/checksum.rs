//! Trusted fingerprint used for corruption detection.
//!
//! The wire format declares a fast, non-cryptographic 64-bit hash
//! (xxHash3-64) over each frame's body.  Its value on given bytes takes
//! pages to state, so it only carries a name here: `xxh3_of` stands for the
//! fingerprint of a byte sequence, and every contract that mentions the
//! checksum speaks of that name.

use vstd::prelude::*;

verus! {

/// The 64-bit xxHash3 fingerprint of a byte sequence.
pub uninterp spec fn xxh3_of(data: Seq<u8>) -> u64;

/// Relies on xxhash_rust::xxh3::xxh3_64: a deterministic, stateless hash of
/// the input bytes alone (default secret, seed 0).
#[verifier::external_body]
pub(crate) fn xxh3(data: &Vec<u8>) -> (r: u64)
    ensures
        r == xxh3_of(data@),
{
    xxhash_rust::xxh3::xxh3_64(data.as_slice())
}

} // verus!
