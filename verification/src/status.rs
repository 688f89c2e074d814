//! The lifecycle state of a view.

use vstd::prelude::*;

verus! {

/// Where a view stands in its lifecycle.
#[derive(Clone, Copy, Debug, PartialEq, Eq, Structural)]
pub enum Status {
    /// The view accepts work.
    Active,
    /// The view was committed.
    Committed,
    /// The view was aborted.
    Aborted,
}

impl Status {
    /// The name of the status.
    pub open spec fn spec_name(self) -> Seq<char> {
        match self {
            Status::Active => "Active"@,
            Status::Committed => "Committed"@,
            Status::Aborted => "Aborted"@,
        }
    }

    /// The name of the status.
    pub fn name(&self) -> (s: &'static str)
        ensures
            s@ == self.spec_name(),
    {
        match self {
            Status::Active => "Active",
            Status::Committed => "Committed",
            Status::Aborted => "Aborted",
        }
    }

    /// Whether the lifecycle has ended.
    #[must_use]
    pub fn is_terminal(self) -> (b: bool)
        ensures
            b == (self == Status::Committed || self == Status::Aborted),
    {
        match self {
            Status::Active => false,
            Status::Committed | Status::Aborted => true,
        }
    }
}

} // verus!
