//! SHA-256 digests, computed by the `sha2` crate.

use sha2::Digest;
use vstd::prelude::*;

verus! {

/// The SHA-256 digest of a byte sequence, as computed by `sha2::Sha256`.
pub uninterp spec fn spec_sha256(bytes: Seq<u8>) -> Seq<u8>;

/// Calls `sha2::Sha256::digest` on `bytes`. Trusted: the result is the named
/// digest of exactly these bytes; its 32-byte length is the type's.
#[verifier::external_body]
pub(crate) fn sha256_digest(bytes: &[u8]) -> (d: [u8; 32])
    ensures
        d@ == spec_sha256(bytes@),
{
    <[u8; 32]>::from(sha2::Sha256::digest(bytes))
}

/// The lower-case hex SHA-256 of `bytes`.
pub fn sha256_hex(bytes: &[u8]) -> (s: String)
    ensures
        s@ == crate::text::spec_hex_lower(spec_sha256(bytes@)),
{
    let digest = sha256_digest(bytes);
    crate::text::hex_lower(&digest)
}

} // verus!
