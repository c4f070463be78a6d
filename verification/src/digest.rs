//! The two hash functions that bind a preimage to its key.

use crate::primitives::B256;
use vstd::prelude::*;

verus! {

/// The Keccak-256 digest of `data`.
pub uninterp spec fn keccak256_digest(data: Seq<u8>) -> Seq<u8>;

/// The SHA-256 digest of `data`.
pub uninterp spec fn sha256_digest(data: Seq<u8>) -> Seq<u8>;

/// `keccak256` of `alloy_primitives`: the Keccak-256 digest of `data`.
#[verifier::external_body]
pub(crate) fn keccak256(data: &[u8]) -> (digest: B256)
    ensures
        digest@ == keccak256_digest(data@),
{
    B256(alloy_primitives::keccak256(data).0)
}

/// `Sha256::digest` of `sha2`: the SHA-256 digest of `data`.
#[verifier::external_body]
pub(crate) fn sha256(data: &[u8]) -> (digest: B256)
    ensures
        digest@ == sha256_digest(data@),
{
    B256(<sha2::Sha256 as sha2::Digest>::digest(data).into())
}

} // verus!
