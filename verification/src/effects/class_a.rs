//! Pure local effects.

use vstd::prelude::*;

use crate::delta;
use crate::delta::Op;
use crate::effects::sealed::Sealed;

verus! {

/// A pure local effect: one mutation of the delta, undone by discarding it.
pub trait ClassA: Sealed + Send + Sized {
    /// Who watches the effect being applied: `()` where nobody does.
    type Witness;

    /// The mutation.
    spec fn mutation(&self) -> delta::Mutation;

    /// What the witness has seen once the effect was applied, where it had
    /// seen `before` until then.
    spec fn witnessed(&self, before: Self::Witness, after: Self::Witness) -> bool;

    /// Produces the mutation in front of a witness.
    fn apply(&self, witness: &mut Self::Witness) -> (op: Op)
        ensures
            op.view() == self.mutation(),
            self.witnessed(*old(witness), *final(witness)),
    ;
}

} // verus!
