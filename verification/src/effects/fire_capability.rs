//! The token without which no remote effect fires.

use vstd::prelude::*;

verus! {

/// The token that a commit makes and hands to each effect it fires. It cannot
/// be copied or sent to another thread, and an abort never makes one.
#[must_use]
pub struct FireCapability {
    seal: std::marker::PhantomData<std::rc::Rc<()>>,
}

impl FireCapability {
    /// Makes a token.
    pub fn new() -> (c: Self)
        ensures
            c.debug_text() == "FireCapability { .. }"@,
    {
        FireCapability { seal: std::marker::PhantomData }
    }

    /// Makes a token for the walking-skeleton kernel.
    pub fn new_for_skeleton() -> (c: Self)
        ensures
            c.debug_text() == "FireCapability { .. }"@,
    {
        FireCapability::new()
    }

    /// The diagnostic form, which reveals nothing.
    pub open spec fn debug_text(&self) -> Seq<char> {
        "FireCapability { .. }"@
    }

    /// Renders the token without revealing anything.
    pub fn debug_string(&self) -> (s: String)
        ensures
            s@ == self.debug_text(),
    {
        String::from_str("FireCapability { .. }")
    }
}

} // verus!
