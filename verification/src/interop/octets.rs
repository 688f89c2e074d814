//! Shared immutable byte strings, from the `bytes` crate.

use vstd::prelude::*;

verus! {

/// The `bytes` crate's byte string.
#[verifier::external_type_specification]
#[verifier::external_body]
pub struct ExBytes(bytes::Bytes);

/// The bytes that a `bytes::Bytes` holds.
pub uninterp spec fn octets(b: bytes::Bytes) -> Seq<u8>;

/// `bytes::Bytes::from` on a vector: takes its bytes over.
#[verifier::external_body]
pub(crate) fn from_vec(v: Vec<u8>) -> (b: bytes::Bytes)
    ensures
        octets(b) == v@,
{
    bytes::Bytes::from(v)
}

/// The `Deref` of `bytes::Bytes`: the bytes as a slice.
#[verifier::external_body]
pub(crate) fn as_slice(b: &bytes::Bytes) -> (s: &[u8])
    ensures
        s@ == octets(*b),
{
    b
}

/// The `Clone` of `bytes::Bytes`: another handle on the same bytes.
#[verifier::external_body]
pub(crate) fn share(b: &bytes::Bytes) -> (r: bytes::Bytes)
    ensures
        octets(r) == octets(*b),
{
    b.clone()
}

} // verus!
