//! What a fired effect reports.

use vstd::prelude::*;

use crate::effect::VersionRef;

verus! {

/// The report of an effect that fired.
#[derive(Debug)]
pub struct EffectReceipt {
    /// The number of the effect within its batch.
    pub effect_id: u64,
    /// The version after the effect; none for an irreversible effect.
    pub version_ref_after: Option<VersionRef>,
    /// The adapter's diagnostics.
    pub adapter_diagnostic: serde_json::Value,
}

} // verus!
