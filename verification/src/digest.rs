//! Digests of byte sequences.

use blake2::{Blake2b, Digest};
use vstd::prelude::*;

verus! {

/// The number of bytes in a digest.
pub const DIGEST_BYTES: usize = 64;

/// The BLAKE2b-512 digest of `input`, as the `blake2` crate computes it.
pub uninterp spec fn blake2b_digest(input: Seq<u8>) -> Seq<u8>;

/// Hashes `input` with `Blake2b::digest` of the `blake2` crate.
///
/// Trusted: the result is the BLAKE2b-512 digest of the bytes handed in, a
/// function of those bytes alone, and it is 64 bytes long, as the output type
/// of `Blake2b`, an array of 64 bytes, has it. Nothing else is claimed of it.
#[verifier::external_body]
pub(crate) fn blake2b(input: &[u8]) -> (digest: Vec<u8>)
    ensures
        digest@ == blake2b_digest(input@),
        digest@.len() == DIGEST_BYTES,
{
    Blake2b::digest(input).to_vec()
}

} // verus!
