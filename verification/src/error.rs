//! The protocol's error catalogue.

use vstd::prelude::*;

use crate::hash;
use crate::status::Status;
use crate::text;
use crate::text::decimal_string;

verus! {

/// A protocol error.
///
/// Nine codes are in use. The code `E-004` is retired and is never reused.
#[derive(Debug)]
#[non_exhaustive]
pub enum ReelError {
    /// `E-001`: no block with this digest is known.
    BlockNotFound(crate::hash::Hash),
    /// `E-002`: a precondition of the commit no longer holds.
    CommitConflict(String),
    /// `E-003`: an irreversible effect was attempted after an abort.
    ClassCAfterAbort,
    /// `E-005`: a view would lie deeper than the fork bound.
    ForkDepthExceeded(u32),
    /// `E-006`: firing an effect took too long.
    EffectDrainTimeout,
    /// `E-007`: the persistence layer failed.
    Storage(String),
    /// `E-008`: the view has already ended.
    ViewTerminal(Status),
    /// `E-009`: the authority at hand does not cover the operation.
    CapabilityViolation(String),
    /// `E-010`: the block is stored but not reachable from the namespace.
    ReachabilityViolation(crate::hash::Hash),
}

impl ReelError {
    /// The stable code of the error.
    pub open spec fn spec_code(self) -> Seq<char> {
        match self {
            ReelError::BlockNotFound(_) => "E-001"@,
            ReelError::CommitConflict(_) => "E-002"@,
            ReelError::ClassCAfterAbort => "E-003"@,
            ReelError::ForkDepthExceeded(_) => "E-005"@,
            ReelError::EffectDrainTimeout => "E-006"@,
            ReelError::Storage(_) => "E-007"@,
            ReelError::ViewTerminal(_) => "E-008"@,
            ReelError::CapabilityViolation(_) => "E-009"@,
            ReelError::ReachabilityViolation(_) => "E-010"@,
        }
    }

    /// The rendered error.
    pub open spec fn message(self) -> Seq<char> {
        match self {
            ReelError::BlockNotFound(h) => "E-001 BlockNotFound: "@ + hash::hex_text(h.view()),
            ReelError::CommitConflict(m) => "E-002 CommitConflict: "@ + m@,
            ReelError::ClassCAfterAbort => "E-003 ClassCAfterAbort (UNREACHABLE)"@,
            ReelError::ForkDepthExceeded(d) => "E-005 ForkDepthExceeded: depth="@ + text::decimal(
                d as nat,
            ),
            ReelError::EffectDrainTimeout => "E-006 EffectDrainTimeout"@,
            ReelError::Storage(m) => "E-007 Storage: "@ + m@,
            ReelError::ViewTerminal(s) => "E-008 ViewTerminal: status="@ + s.spec_name(),
            ReelError::CapabilityViolation(m) => "E-009 CapabilityViolation: "@ + m@,
            ReelError::ReachabilityViolation(h) => "E-010 ReachabilityViolation: hash="@
                + hash::short_text(h.view()),
        }
    }

    /// The error is a storage failure with this text.
    pub open spec fn is_storage(self, text: Seq<char>) -> bool {
        self matches ReelError::Storage(m) && m@ == text
    }

    /// The error is a capability violation with this text.
    pub open spec fn is_capability_violation(self, text: Seq<char>) -> bool {
        self matches ReelError::CapabilityViolation(m) && m@ == text
    }

    /// Whether the operation may be tried again.
    pub open spec fn recoverable(self) -> bool {
        !(self is ClassCAfterAbort || self is EffectDrainTimeout || self is Storage)
    }

    /// The stable `E-NNN` code, by which callers classify the error.
    #[must_use]
    pub fn code(&self) -> (c: &'static str)
        ensures
            c@ == self.spec_code(),
    {
        match self {
            ReelError::BlockNotFound(_) => "E-001",
            ReelError::CommitConflict(_) => "E-002",
            ReelError::ClassCAfterAbort => "E-003",
            ReelError::ForkDepthExceeded(_) => "E-005",
            ReelError::EffectDrainTimeout => "E-006",
            ReelError::Storage(_) => "E-007",
            ReelError::ViewTerminal(_) => "E-008",
            ReelError::CapabilityViolation(_) => "E-009",
            ReelError::ReachabilityViolation(_) => "E-010",
        }
    }

    /// Whether the caller may retry: false for an invariant breach, a drain
    /// timeout and a storage failure.
    #[must_use]
    pub fn is_recoverable(&self) -> (b: bool)
        ensures
            b == self.recoverable(),
    {
        match self {
            ReelError::ClassCAfterAbort | ReelError::EffectDrainTimeout | ReelError::Storage(_) => {
                false
            },
            _ => true,
        }
    }

    /// Renders the error, its code first.
    pub fn to_string(&self) -> (s: String)
        ensures
            s@ == self.message(),
    {
        match self {
            ReelError::BlockNotFound(h) => String::from_str("E-001 BlockNotFound: ").concat(
                h.to_hex().as_str(),
            ),
            ReelError::CommitConflict(m) => String::from_str("E-002 CommitConflict: ").concat(
                m.as_str(),
            ),
            ReelError::ClassCAfterAbort => String::from_str("E-003 ClassCAfterAbort (UNREACHABLE)"),
            ReelError::ForkDepthExceeded(d) => String::from_str(
                "E-005 ForkDepthExceeded: depth=",
            ).concat(decimal_string(*d as u64).as_str()),
            ReelError::EffectDrainTimeout => String::from_str("E-006 EffectDrainTimeout"),
            ReelError::Storage(m) => String::from_str("E-007 Storage: ").concat(m.as_str()),
            ReelError::ViewTerminal(s) => String::from_str("E-008 ViewTerminal: status=").concat(
                s.name(),
            ),
            ReelError::CapabilityViolation(m) => String::from_str(
                "E-009 CapabilityViolation: ",
            ).concat(m.as_str()),
            ReelError::ReachabilityViolation(h) => String::from_str(
                "E-010 ReachabilityViolation: hash=",
            ).concat(h.short().as_str()),
        }
    }
}

/// Every rendering starts with the code that [`ReelError::code`] returns.
pub proof fn law_code_prefixes_message(e: ReelError)
    ensures
        text::has_prefix(e.message(), e.spec_code()),
{
    reveal_strlit("E-001");
    reveal_strlit("E-002");
    reveal_strlit("E-003");
    reveal_strlit("E-005");
    reveal_strlit("E-006");
    reveal_strlit("E-007");
    reveal_strlit("E-008");
    reveal_strlit("E-009");
    reveal_strlit("E-010");
    reveal_strlit("E-001 BlockNotFound: ");
    reveal_strlit("E-002 CommitConflict: ");
    reveal_strlit("E-003 ClassCAfterAbort (UNREACHABLE)");
    reveal_strlit("E-005 ForkDepthExceeded: depth=");
    reveal_strlit("E-006 EffectDrainTimeout");
    reveal_strlit("E-007 Storage: ");
    reveal_strlit("E-008 ViewTerminal: status=");
    reveal_strlit("E-009 CapabilityViolation: ");
    reveal_strlit("E-010 ReachabilityViolation: hash=");
    assert(e.message().subrange(0, 5) =~= e.spec_code());
}

/// The code tells which error it is: two errors with one code are of one kind.
pub proof fn law_codes_identify_errors(a: ReelError, b: ReelError)
    requires
        a.spec_code() == b.spec_code(),
    ensures
        a is BlockNotFound <==> b is BlockNotFound,
        a is CommitConflict <==> b is CommitConflict,
        a is ClassCAfterAbort <==> b is ClassCAfterAbort,
        a is ForkDepthExceeded <==> b is ForkDepthExceeded,
        a is EffectDrainTimeout <==> b is EffectDrainTimeout,
        a is Storage <==> b is Storage,
        a is ViewTerminal <==> b is ViewTerminal,
        a is CapabilityViolation <==> b is CapabilityViolation,
        a is ReachabilityViolation <==> b is ReachabilityViolation,
        a.recoverable() == b.recoverable(),
{
    reveal_strlit("E-001");
    reveal_strlit("E-002");
    reveal_strlit("E-003");
    reveal_strlit("E-005");
    reveal_strlit("E-006");
    reveal_strlit("E-007");
    reveal_strlit("E-008");
    reveal_strlit("E-009");
    reveal_strlit("E-010");
    assert("E-001"@[4] == '1' && "E-002"@[4] == '2' && "E-003"@[4] == '3' && "E-005"@[4] == '5'
        && "E-006"@[4] == '6' && "E-007"@[4] == '7' && "E-008"@[4] == '8' && "E-009"@[4] == '9'
        && "E-010"@[4] == '0');
    assert(a.spec_code()[4] == b.spec_code()[4]);
}

/// Each kind of error has its own code.
pub proof fn law_each_error_has_its_code(e: ReelError)
    ensures
        e is BlockNotFound ==> e.spec_code() == "E-001"@,
        e is CommitConflict ==> e.spec_code() == "E-002"@,
        e is ClassCAfterAbort ==> e.spec_code() == "E-003"@,
        e is ForkDepthExceeded ==> e.spec_code() == "E-005"@,
        e is EffectDrainTimeout ==> e.spec_code() == "E-006"@,
        e is Storage ==> e.spec_code() == "E-007"@,
        e is ViewTerminal ==> e.spec_code() == "E-008"@,
        e is CapabilityViolation ==> e.spec_code() == "E-009"@,
        e is ReachabilityViolation ==> e.spec_code() == "E-010"@,
{
}

/// An operation may be tried again unless an invariant was breached, a drain
/// timed out or the storage failed.
pub proof fn law_what_may_be_tried_again(e: ReelError)
    ensures
        e.recoverable() <==> e is BlockNotFound || e is CommitConflict || e is ForkDepthExceeded
            || e is ViewTerminal || e is CapabilityViolation || e is ReachabilityViolation,
{
}

/// A rendering ends with what the error carries: its text, the digest of the
/// block, the depth or the status.
pub proof fn law_message_ends_with_what_is_carried(
    m: String,
    h: crate::hash::Hash,
    d: u32,
    s: Status,
)
    ensures
        ReelError::Storage(m).message() == "E-007 Storage: "@ + m@,
        ReelError::CommitConflict(m).message() == "E-002 CommitConflict: "@ + m@,
        ReelError::CapabilityViolation(m).message() == "E-009 CapabilityViolation: "@ + m@,
        ReelError::BlockNotFound(h).message() == "E-001 BlockNotFound: "@ + hash::hex_text(
            h.view(),
        ),
        ReelError::ReachabilityViolation(h).message() == "E-010 ReachabilityViolation: hash="@ + (
        "Hash("@ + hash::hex_text(h.view()).take(8) + "\u{2026})"@),
        ReelError::ForkDepthExceeded(d).message() == "E-005 ForkDepthExceeded: depth="@
            + text::decimal(d as nat),
        ReelError::ViewTerminal(s).message() == "E-008 ViewTerminal: status="@ + (match s {
            Status::Active => "Active"@,
            Status::Committed => "Committed"@,
            Status::Aborted => "Aborted"@,
        }),
{
}

/// A storage failure and a violation are the errors of that kind with that
/// text.
pub proof fn law_failures_are_of_their_kind(e: ReelError, t: Seq<char>)
    ensures
        e.is_storage(t) <==> (e matches ReelError::Storage(m) && m@ == t),
        e.is_capability_violation(t) <==> (e matches ReelError::CapabilityViolation(m) && m@ == t),
{
}

} // verus!
