//! The three effect classes, the tokens that gate them, and a fake adapter.

pub mod boxed;
pub mod capability;
pub mod class_a;
pub mod class_b;
pub mod fake;
pub mod fire_capability;
pub mod marker;
pub mod receipt;
pub mod sealed;
