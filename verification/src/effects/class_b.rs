//! What the precondition of an idempotent effect is checked with.

use vstd::prelude::*;

verus! {

/// The context of a precondition check.
#[derive(Clone, Copy, Debug, PartialEq, Eq, Structural)]
pub struct PreconditionCtx {
    /// Milliseconds left to drain effects in; `0` means no limit.
    pub drain_budget_ms: u64,
}

} // verus!
