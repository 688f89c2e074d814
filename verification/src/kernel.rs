//! The kernel's verbs that touch no effects: fork and abort.

use vstd::prelude::*;

use crate::capability::Capability;
use crate::delta;
use crate::error::ReelError;
use crate::status::Status;
use crate::view;

verus! {

/// The kernel over a store.
#[derive(Debug)]
pub struct Kernel<S> {
    store: S,
}

/// A view as an abort leaves it: everything pending is gone, and all else is
/// as it was.
pub open spec fn is_aborted_from(before: view::Workspace, after: view::Workspace) -> bool {
    after == (view::Workspace {
        delta: delta::Mutations { base: before.delta.base, ops: Seq::empty() },
        effects: None,
        status: Status::Aborted,
        ..before
    })
}

impl<S> Kernel<S> {
    /// The store.
    pub closed spec fn spec_store(&self) -> S {
        self.store
    }

    /// A kernel over `store`.
    #[must_use]
    pub fn new(store: S) -> (k: Self)
        ensures
            k.spec_store() == store,
    {
        Kernel { store }
    }

    /// The store.
    #[must_use]
    pub fn store(&self) -> (s: &S)
        ensures
            *s == self.spec_store(),
    {
        &self.store
    }

    /// The store, to write to.
    pub fn store_mut(&mut self) -> (s: &mut S)
        ensures
            *s == old(self).spec_store(),
            final(self).spec_store() == *final(s),
    {
        &mut self.store
    }

    /// Forks a view off `parent` with authority that `parent` covers.
    pub fn fork(&mut self, parent: &view::View, attenuated_caps: Vec<Capability>) -> (r: Result<
        view::View,
        ReelError,
    >)
        ensures
            *final(self) == *old(self),
            view::is_fork(*parent, attenuated_caps, r),
    {
        view::View::child_of(parent, attenuated_caps)
    }

    /// Aborts an active view: drops its pending effects and mutations. A view
    /// that has ended is refused and left as it is.
    pub fn abort(&mut self, view: &mut view::View) -> (r: Result<(), ReelError>)
        ensures
            *final(self) == *old(self),
            r is Ok <==> old(view).status == Status::Active,
            r is Ok ==> is_aborted_from(old(view).view(), final(view).view()),
            r matches Err(e) ==> e == ReelError::ViewTerminal(old(view).status) && *final(view)
                == *old(view),
    {
        if !view.is_active() {
            return Err(ReelError::ViewTerminal(view.status));
        }
        view.effects_hash = None;
        view.delta.ops.clear();
        proof {
            assert(view.delta.view().ops =~= Seq::empty());
        }
        view.transition_to(Status::Aborted)
    }
}

/// What an abort leaves does not depend on what was pending: two views that
/// differ only in pending mutations and effects end up the same.
pub proof fn law_abort_normal_form(
    a: view::Workspace,
    b: view::Workspace,
    a_after: view::Workspace,
    b_after: view::Workspace,
)
    requires
        is_aborted_from(a, a_after),
        is_aborted_from(b, b_after),
        a.id == b.id,
        a.namespace == b.namespace,
        a.delta.base == b.delta.base,
        a.caps == b.caps,
        a.parent == b.parent,
    ensures
        a_after == b_after,
        a_after.effects is None,
        a_after.delta.ops.len() == 0,
        a_after.status == Status::Aborted,
{
}

/// An abort drops the mutations and the pending effects, ends the view, and
/// keeps everything else of it.
pub proof fn law_abort_keeps_the_rest(before: view::Workspace, after: view::Workspace)
    requires
        is_aborted_from(before, after),
    ensures
        after.status == Status::Aborted,
        after.effects is None,
        after.delta.ops.len() == 0,
        after.delta.base == before.delta.base,
        after.id == before.id,
        after.namespace == before.namespace,
        after.caps == before.caps,
        after.parent == before.parent,
{
}

} // verus!
