//! What the library takes from outside crates, each call behind a small
//! contract.

pub mod cbor;
pub mod clock;
pub mod digest;
pub mod ids;
pub mod json;
pub mod octets;
pub mod syntax;
