//! Content hashing for snapshots.

use vstd::prelude::*;

verus! {

/// The hex-encoded SHA-256 digest of a byte sequence. The digest is a pure
/// function of the bytes, so it carries a name rather than a definition.
pub uninterp spec fn sha256_hex_of(data: Seq<u8>) -> Seq<char>;

/// Relies on `sha256::digest` (backed by the `sha2` crate and `hex::encode`):
/// the digest depends on the input bytes alone and is hex-encoded, two
/// characters for each of the 32 digest bytes.
#[verifier::external_body]
pub fn hash_bytes(data: &Vec<u8>) -> (r: String)
    ensures
        r@ == sha256_hex_of(data@),
        r@.len() == 64,
{
    sha256::digest(data)
}

} // verus!
