//! Adapters: how names and effects meet the outside world.

pub mod fs;
pub mod slack;
pub mod slack_decode;
