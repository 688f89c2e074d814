//! The boundary between an agent's speculative work and the systems that it
//! does not own.
//!
//! Work happens in a [`view::View`]: a closure of names, pending mutations,
//! authority and pending effects. `fork` opens one, `commit` makes it real and
//! `abort` discards it. Content is held in immutable [`block::Block`]s that are
//! named by their digests, and a view's pending effects are such a block too.
//!
//! Three properties run through the library, each proved of the code that has
//! to keep it:
//!
//! - reachability: a block is handed out only where it can be reached from the
//!   names of a namespace ([`store`]);
//! - silence: what a discarded view had pending never fires ([`skeleton`],
//!   [`kernel`], [`drain`]);
//! - narrowing: authority that is passed on never grows ([`capability`],
//!   [`view`], [`effects`], [`adapters`]).
//!
//! What comes from other crates stands in [`interop`] and [`namespace`], each
//! call behind a contract of its own.

pub mod adapters;
pub mod block;
pub mod capability;
pub mod cbor_head;
pub mod delta;
pub mod delta_form;
pub mod drain;
pub mod effect;
pub mod effects;
pub mod error;
pub mod hash;
pub mod interop;
pub mod kernel;
pub mod namespace;
pub mod order;
pub mod provenance;
pub mod ref_type;
pub mod skeleton;
pub mod status;
pub mod store;
pub mod table;
pub mod text;
pub mod view;
