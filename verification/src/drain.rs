//! The order in which a commit fires its effects.

use vstd::prelude::*;

verus! {

/// What a commit does next.
#[derive(Clone, Copy, Debug, PartialEq, Eq, Structural)]
pub enum DrainStep {
    /// Fires the idempotent effect with this number.
    FireB(usize),
    /// Fires the irreversible effect with this number.
    FireC(usize),
    /// Publishes the commit: every effect has fired.
    Publish,
    /// Stops: an effect has failed.
    Stop,
}

/// How far a commit has come.
#[derive(Clone, Copy, Debug)]
pub struct Drain {
    class_b: usize,
    class_c: usize,
    fired_b: usize,
    fired_c: usize,
    failed: bool,
}

impl Drain {
    /// The number of idempotent effects.
    pub closed spec fn total_b(&self) -> nat {
        self.class_b as nat
    }

    /// The number of irreversible effects.
    pub closed spec fn total_c(&self) -> nat {
        self.class_c as nat
    }

    /// The number of idempotent effects that have fired.
    pub closed spec fn done_b(&self) -> nat {
        self.fired_b as nat
    }

    /// The number of irreversible effects that have fired.
    pub closed spec fn done_c(&self) -> nat {
        self.fired_c as nat
    }

    /// Whether an effect has failed.
    pub closed spec fn has_failed(&self) -> bool {
        self.failed
    }

    /// No irreversible effect has fired before the last idempotent one.
    pub open spec fn wf(&self) -> bool {
        &&& self.done_b() <= self.total_b()
        &&& self.done_c() <= self.total_c()
        &&& self.done_c() > 0 ==> self.done_b() == self.total_b()
    }

    /// What is done next.
    pub open spec fn spec_next(&self) -> DrainStep {
        if self.has_failed() {
            DrainStep::Stop
        } else if self.done_b() < self.total_b() {
            DrainStep::FireB(self.done_b() as usize)
        } else if self.done_c() < self.total_c() {
            DrainStep::FireC(self.done_c() as usize)
        } else {
            DrainStep::Publish
        }
    }

    /// A commit of this many effects that has fired none of them.
    pub fn new(class_b: usize, class_c: usize) -> (d: Self)
        ensures
            d.wf(),
            d.total_b() == class_b,
            d.total_c() == class_c,
            d.done_b() == 0,
            d.done_c() == 0,
            !d.has_failed(),
    {
        Drain { class_b, class_c, fired_b: 0, fired_c: 0, failed: false }
    }

    /// What is done next.
    pub fn next(&self) -> (s: DrainStep)
        requires
            self.wf(),
        ensures
            s == self.spec_next(),
    {
        if self.failed {
            DrainStep::Stop
        } else if self.fired_b < self.class_b {
            DrainStep::FireB(self.fired_b)
        } else if self.fired_c < self.class_c {
            DrainStep::FireC(self.fired_c)
        } else {
            DrainStep::Publish
        }
    }

    /// Takes note of how the effect that was to fire came out.
    pub fn record(&mut self, fired: bool)
        requires
            old(self).wf(),
            old(self).spec_next() is FireB || old(self).spec_next() is FireC,
        ensures
            final(self).wf(),
            final(self).total_b() == old(self).total_b(),
            final(self).total_c() == old(self).total_c(),
            final(self).has_failed() == !fired,
            final(self).done_b() == old(self).done_b() + (if fired && old(self).spec_next() is FireB {
                1nat
            } else {
                0nat
            }),
            final(self).done_c() == old(self).done_c() + (if fired && old(self).spec_next() is FireC {
                1nat
            } else {
                0nat
            }),
    {
        if !fired {
            self.failed = true;
        } else if self.fired_b < self.class_b {
            self.fired_b = self.fired_b + 1;
        } else {
            self.fired_c = self.fired_c + 1;
        }
    }
}

/// An irreversible effect is only ever next once every idempotent one has
/// fired, and a commit is only published once every effect has fired.
pub proof fn law_drain_order(d: Drain)
    requires
        d.wf(),
    ensures
        d.spec_next() is FireC ==> d.done_b() == d.total_b(),
        d.spec_next() is Publish ==> d.done_b() == d.total_b() && d.done_c() == d.total_c()
            && !d.has_failed(),
        d.has_failed() ==> d.spec_next() is Stop,
{
}

/// A drain fires each effect once, in order: what is next is the first effect
/// that has not fired, an idempotent one as long as there is one, and the
/// commit is published exactly when none is left and none has failed.
pub proof fn law_drain_fires_each_in_turn(d: Drain, i: usize)
    requires
        d.wf(),
        d.total_b() <= usize::MAX,
        d.total_c() <= usize::MAX,
    ensures
        d.spec_next() == DrainStep::FireB(i) <==> !d.has_failed() && i == d.done_b() && i
            < d.total_b(),
        d.spec_next() == DrainStep::FireC(i) <==> !d.has_failed() && d.done_b() == d.total_b() && i
            == d.done_c() && i < d.total_c(),
        d.spec_next() == DrainStep::Publish <==> !d.has_failed() && d.done_b() == d.total_b()
            && d.done_c() == d.total_c(),
        d.spec_next() == DrainStep::Stop <==> d.has_failed(),
{
}

} // verus!
