//! Immutable content-addressed blocks.

use vstd::prelude::*;

use crate::error::ReelError;
use crate::hash;
use crate::interop::digest;
use crate::interop::octets;
use crate::table::Keyed;
use crate::text;
use crate::text::decimal_string;

verus! {

/// The largest payload of a block: 16 MiB.
pub const MAX_BLOCK_SIZE: usize = 16777216;

/// An immutable payload, named by the digest of its bytes.
#[derive(Debug, PartialEq, Eq)]
pub struct Block {
    /// The BLAKE3-256 digest of `data`.
    pub hash: crate::hash::Hash,
    /// The payload.
    pub data: bytes::Bytes,
}

/// The refusal of a payload of `len` bytes.
pub open spec fn oversize_text(len: nat) -> Seq<char> {
    "Block payload exceeds MAX_BLOCK_SIZE ("@ + text::decimal(len) + " > "@ + text::decimal(
        MAX_BLOCK_SIZE as nat,
    ) + " bytes)"@
}

impl Block {
    /// The payload bytes.
    pub open spec fn payload(&self) -> Seq<u8> {
        octets::octets(self.data)
    }

    /// The digest is the one of the payload, and the payload is not too large.
    pub open spec fn wf(&self) -> bool {
        &&& self.hash.view() == digest::blake3_256(self.payload())
        &&& self.payload().len() <= MAX_BLOCK_SIZE
    }

    /// Makes the block of `data`, unless `data` is larger than
    /// [`MAX_BLOCK_SIZE`].
    pub fn new(data: Vec<u8>) -> (r: Result<Self, ReelError>)
        ensures
            match r {
                Ok(b) => data@.len() <= MAX_BLOCK_SIZE && b.payload() == data@ && b.wf(),
                Err(e) => data@.len() > MAX_BLOCK_SIZE && e.is_storage(oversize_text(data@.len())),
            },
    {
        let len: usize = data.len();
        if len > MAX_BLOCK_SIZE {
            let m = String::from_str("Block payload exceeds MAX_BLOCK_SIZE (").concat(
                decimal_string(len as u64).as_str(),
            ).concat(" > ").concat(decimal_string(MAX_BLOCK_SIZE as u64).as_str()).concat(
                " bytes)",
            );
            return Err(ReelError::Storage(m));
        }
        let data = octets::from_vec(data);
        let hash = content_hash(octets::as_slice(&data));
        Ok(Block { hash, data })
    }

    /// The digest.
    #[must_use]
    pub fn hash(&self) -> (h: crate::hash::Hash)
        ensures
            h == self.hash,
    {
        self.hash
    }
}

impl Clone for Block {
    fn clone(&self) -> (b: Self)
        ensures
            b.hash == self.hash,
            b.payload() == self.payload(),
    {
        Block { hash: self.hash, data: octets::share(&self.data) }
    }
}

impl Keyed for Block {
    open spec fn key(&self) -> Seq<u8> {
        self.hash.view()
    }

    fn key_bytes(&self) -> (k: &[u8]) {
        self.hash.key_bytes()
    }
}

/// The content address of `data`: its BLAKE3-256 digest.
#[must_use]
pub fn content_hash(data: &[u8]) -> (h: crate::hash::Hash)
    ensures
        h.view() == digest::blake3_256(data@),
{
    let d = digest::digest(data);
    proof {
        hash::law_conversions_keep_the_bytes(digest::digest_bytes(d), d, arbitrary());
    }
    crate::hash::Hash::from(d)
}

/// Identity is content: two well-formed blocks with the same payload have the
/// same digest.
pub proof fn law_same_content_same_block(a: Block, b: Block)
    requires
        a.wf(),
        b.wf(),
        a.payload() == b.payload(),
    ensures
        a.hash == b.hash,
{
    hash::lemma_hash_ext(a.hash, b.hash);
}

/// A well-formed block is named by the digest of its payload, which has at most
/// 16 MiB.
pub proof fn law_block_is_named_by_its_content(b: Block)
    ensures
        b.wf() <==> b.hash.view() == digest::blake3_256(octets::octets(b.data)) && octets::octets(
            b.data,
        ).len() <= 16777216,
{
}

} // verus!
