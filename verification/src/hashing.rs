//! The shared hasher: BLAKE2b with a 32-byte output.
use vstd::prelude::*;
use crate::primitives::Digest;

verus! {

/// The BLAKE2b-256 digest of a byte string.
pub uninterp spec fn blake2_256(data: Seq<u8>) -> Seq<u8>;

/// Calls `blake2_rfc::blake2b::blake2b` with an output length of 32 and no
/// key. The contract claims only that the digest is a function of the data:
/// the 32 bytes that come back are the ones named `blake2_256(data)`.
#[verifier::external_body]
pub(crate) fn blake2b_32(data: &[u8]) -> (digest: Digest)
    ensures
        digest@ == blake2_256(data@),
{
    let mut digest = [0u8; 32];
    digest.copy_from_slice(blake2_rfc::blake2b::blake2b(32, &[], data).as_bytes());
    digest
}

} // verus!
