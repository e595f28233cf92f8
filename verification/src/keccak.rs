use vstd::prelude::*;

verus! {

/// The Keccak-256 digest of `data` (32 bytes), as computed by
/// `alloy::primitives::keccak256`.
pub uninterp spec fn keccak256_digest(data: Seq<u8>) -> Seq<u8>;

/// Calls `alloy::primitives::keccak256`, which hashes its input with
/// Keccak-256 and returns the 32-byte digest.
/// Trusted: the digest is a function of the input bytes alone, named
/// `keccak256_digest`; nothing else about the hash function is stated.
#[verifier::external_body]
pub(crate) fn keccak256(data: &[u8]) -> (digest: [u8; 32])
    ensures
        digest@ == keccak256_digest(data@),
{
    alloy::primitives::keccak256(data).0
}

} // verus!
