use vstd::prelude::*;

verus! {

/// The lowercase hexadecimal SHA-256 digest of `data`.
pub uninterp spec fn sha256_hex(data: Seq<u8>) -> Seq<char>;

/// Calls `sha256::digest` on a byte slice.
///
/// Trusted: `sha256::digest` hashes the bytes with SHA-256 and hex-encodes the
/// result; the contract only ties the returned text to the bytes through the
/// name `sha256_hex`, so equal inputs give equal digests.
#[verifier::external_body]
pub(crate) fn sha256_digest(data: &[u8]) -> (r: String)
    ensures
        r@ == sha256_hex(data@),
{
    sha256::digest(data)
}

} // verus!
