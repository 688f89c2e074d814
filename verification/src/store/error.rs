//! What can go wrong in the storage layer.

use vstd::prelude::*;

use crate::error::ReelError;

verus! {

/// An error of a storage operation.
#[derive(Debug)]
#[non_exhaustive]
pub enum StoreError {
    /// A protocol error, to be handed on as it is.
    Protocol(ReelError),
    /// The storage engine failed.
    Engine(String),
    /// The file system failed.
    Io(String),
    /// A stored value could not be encoded or decoded.
    Codec(String),
    /// The configuration does not allow the operation.
    Config(String),
}

impl StoreError {
    /// The rendered error.
    pub open spec fn message(self) -> Seq<char> {
        match self {
            StoreError::Protocol(e) => e.message(),
            StoreError::Engine(m) => "redb engine: "@ + m@,
            StoreError::Io(m) => "io: "@ + m@,
            StoreError::Codec(m) => "cbor: "@ + m@,
            StoreError::Config(m) => "config: "@ + m@,
        }
    }

    /// The error for a block that is not stored.
    #[must_use]
    pub fn block_not_found(hash: crate::hash::Hash) -> (e: Self)
        ensures
            e == StoreError::Protocol(ReelError::BlockNotFound(hash)),
    {
        StoreError::Protocol(ReelError::BlockNotFound(hash))
    }

    /// The error for a block that is stored but not reachable.
    #[must_use]
    pub fn reachability_violation(hash: crate::hash::Hash) -> (e: Self)
        ensures
            e == StoreError::Protocol(ReelError::ReachabilityViolation(hash)),
    {
        StoreError::Protocol(ReelError::ReachabilityViolation(hash))
    }

    /// Renders the error.
    pub fn to_string(&self) -> (s: String)
        ensures
            s@ == self.message(),
    {
        match self {
            StoreError::Protocol(e) => e.to_string(),
            StoreError::Engine(m) => String::from_str("redb engine: ").concat(m.as_str()),
            StoreError::Io(m) => String::from_str("io: ").concat(m.as_str()),
            StoreError::Codec(m) => String::from_str("cbor: ").concat(m.as_str()),
            StoreError::Config(m) => String::from_str("config: ").concat(m.as_str()),
        }
    }
}

impl From<ReelError> for StoreError {
    fn from(e: ReelError) -> (r: Self) {
        StoreError::Protocol(e)
    }
}

impl vstd::std_specs::convert::FromSpecImpl<ReelError> for StoreError {
    open spec fn obeys_from_spec() -> bool {
        true
    }

    open spec fn from_spec(e: ReelError) -> Self {
        StoreError::Protocol(e)
    }
}

} // verus!
