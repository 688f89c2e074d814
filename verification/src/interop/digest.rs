//! Content digests, from the `blake3` crate.

use blake3::Hash as Blake3Digest;
use vstd::prelude::*;

verus! {

/// The `blake3` crate's digest.
#[verifier::external_type_specification]
#[verifier::external_body]
pub struct ExBlake3Digest(Blake3Digest);

/// The bytes that a `blake3::Hash` holds.
pub uninterp spec fn digest_bytes(d: Blake3Digest) -> [u8; 32];

/// The BLAKE3-256 digest of `data`.
pub uninterp spec fn blake3_256(data: Seq<u8>) -> Seq<u8>;

/// `blake3::hash`: the BLAKE3-256 digest of the input, a function of its bytes.
#[verifier::external_body]
pub(crate) fn digest(data: &[u8]) -> (d: Blake3Digest)
    ensures
        digest_bytes(d)@ == blake3_256(data@),
{
    blake3::hash(data)
}

/// `blake3::Hash::as_bytes`: the 32 bytes that the digest holds.
#[verifier::external_body]
pub(crate) fn raw_bytes(d: &Blake3Digest) -> (bytes: [u8; 32])
    ensures
        bytes == digest_bytes(*d),
{
    *d.as_bytes()
}

} // verus!
