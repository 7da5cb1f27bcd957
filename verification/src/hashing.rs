//! Content hashing.

use vstd::prelude::*;
use crate::primitives::H256;

verus! {

/// The BLAKE2b digest of `data` at an output length of 32 bytes, without a key.
pub uninterp spec fn blake2_256(data: Seq<u8>) -> H256;

/// Calls `blake2_rfc::blake2b::blake2b` with an output length of 32 and an empty key.
///
/// Not proved: that the bytes handed back are the BLAKE2b-256 digest of `data`. The outside
/// function is deterministic in its arguments; the contract gives its result the name
/// [`blake2_256`] and says nothing else about it.
#[verifier::external_body]
pub(crate) fn blake2_256_digest(data: &[u8]) -> (digest: H256)
    ensures
        digest == blake2_256(data@),
{
    let result = blake2_rfc::blake2b::blake2b(32, &[], data);
    let mut digest = [0u8; 32];
    digest.copy_from_slice(result.as_bytes());
    digest
}

} // verus!
