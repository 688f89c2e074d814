//! Where introduced content comes from.

use vstd::prelude::*;

use crate::interop::clock;

verus! {

/// The version of this kernel.
pub const KERNEL_VERSION: &'static str = "0.1.0";

/// A point in time, to the nanosecond.
#[derive(Clone, Copy, Debug, PartialEq, Eq, Structural)]
pub struct Timestamp {
    /// The whole seconds since 1970-01-01 00:00:00 UTC.
    pub seconds: i64,
    /// The nanoseconds of the second that has begun.
    pub nanos: u32,
}

/// The lineage of introduced content: which kernel brought it in, when, and
/// by whom. It belongs to the commit and is no part of a block's identity.
#[derive(Debug, PartialEq, Eq)]
pub struct Provenance {
    /// The version of the kernel.
    pub kernel_version: String,
    /// The time.
    pub created_at: Timestamp,
    /// The public key of the signing party.
    pub signer: Option<[u8; 32]>,
}

impl Provenance {
    /// The lineage of content that is introduced now by this kernel, unsigned.
    /// What the clock says is left open.
    #[must_use]
    pub fn current() -> (p: Self)
        ensures
            p.kernel_version@ == KERNEL_VERSION@,
            p.created_at.nanos < 1_000_000_000,
            p.signer is None,
    {
        let (seconds, nanos) = clock::now();
        Provenance::at(Timestamp { seconds, nanos })
    }

    /// The lineage of content that was introduced by this kernel at the given
    /// time, unsigned.
    #[must_use]
    pub fn at(created_at: Timestamp) -> (p: Self)
        ensures
            p.kernel_version@ == KERNEL_VERSION@,
            p.created_at == created_at,
            p.signer is None,
    {
        Provenance { kernel_version: String::from_str(KERNEL_VERSION), created_at, signer: None }
    }
}

impl Clone for Provenance {
    fn clone(&self) -> (p: Self)
        ensures
            p.kernel_version@ == self.kernel_version@,
            p.created_at == self.created_at,
            p.signer == self.signer,
    {
        Provenance {
            kernel_version: self.kernel_version.clone(),
            created_at: self.created_at,
            signer: self.signer,
        }
    }
}

} // verus!
