//! Content-addressed storage: the reachability rule, the in-memory backend and
//! the decisions that every backend takes.

pub mod error;
pub mod mem;
pub mod reachability;
pub mod rules;
pub mod store_trait;
