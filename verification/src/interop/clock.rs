//! The wall clock, from the `chrono` crate.

use vstd::prelude::*;

verus! {

/// `chrono::Utc::now` as whole seconds since 1970-01-01 00:00:00 UTC and the
/// nanoseconds of the second that has begun. Which time it is, the machine's
/// clock says: that is left open.
#[verifier::external_body]
pub(crate) fn now() -> (t: (i64, u32))
    ensures
        t.1 < 1_000_000_000,
{
    let now = chrono::Utc::now();
    (now.timestamp(), now.timestamp_subsec_nanos())
}

} // verus!
