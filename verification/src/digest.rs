//! The SHA-256 digest.

use vstd::prelude::*;
use sha2::Digest;
use crate::provenance::{hex_encode, spec_hex_encode};

verus! {

/// Name for the SHA-256 digest of a byte sequence, as the `sha2` crate computes it.
pub uninterp spec fn sha256(b: Seq<u8>) -> Seq<u8>;

/// `sha2::Sha256::digest`.
/// Trusted: the result is `sha256(bytes)`, a function of the bytes alone, and
/// has 32 bytes (the SHA-256 output size).
#[verifier::external_body]
pub(crate) fn sha256_digest(bytes: &[u8]) -> (r: Vec<u8>)
    ensures
        r@ == sha256(bytes@),
        r@.len() == 32,
{
    sha2::Sha256::digest(bytes).to_vec()
}

/// The lowercase hexadecimal SHA-256 of a byte sequence (64 characters).
pub fn sha256_hex(bytes: &[u8]) -> (r: String)
    ensures
        r@ == spec_hex_encode(sha256(bytes@)),
        r@.len() == 64,
{
    let digest = sha256_digest(bytes);
    hex_encode(digest.as_slice())
}

} // verus!
