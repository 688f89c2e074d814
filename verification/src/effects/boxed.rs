//! Effects with their type erased.

use vstd::prelude::*;

use crate::delta;
use crate::delta::Op;
use crate::effects::class_a::ClassA;

verus! {

trait ErasedA<W>: Send {
    spec fn erased_mutation(&self) -> delta::Mutation;

    spec fn erased_witnessed(&self, before: W, after: W) -> bool;

    fn apply_erased(&self, witness: &mut W) -> (op: Op)
        ensures
            op.view() == self.erased_mutation(),
            self.erased_witnessed(*old(witness), *final(witness)),
    ;
}

impl<T: ClassA> ErasedA<T::Witness> for T {
    spec fn erased_mutation(&self) -> delta::Mutation {
        self.mutation()
    }

    spec fn erased_witnessed(&self, before: T::Witness, after: T::Witness) -> bool {
        self.witnessed(before, after)
    }

    fn apply_erased(&self, witness: &mut T::Witness) -> (op: Op) {
        self.apply(witness)
    }
}

/// A pure local effect of any type, in front of a witness `W`.
#[must_use]
#[verifier::reject_recursive_types(W)]
pub struct BoxedA<W> {
    effect: Box<dyn ErasedA<W>>,
}

impl<W> BoxedA<W> {
    /// The mutation.
    pub closed spec fn mutation(&self) -> delta::Mutation {
        self.effect.erased_mutation()
    }

    /// What the witness has seen once the effect was applied, where it had
    /// seen `before` until then.
    pub closed spec fn witnessed(&self, before: W, after: W) -> bool {
        self.effect.erased_witnessed(before, after)
    }

    /// Erases the type of `effect`.
    pub fn new<E: ClassA<Witness = W> + 'static>(effect: E) -> (b: Self)
        ensures
            b.mutation() == effect.mutation(),
            forall|before: W, after: W| #[trigger]
                b.witnessed(before, after) == effect.witnessed(before, after),
    {
        BoxedA { effect: Box::new(effect) }
    }

    /// Applies the effect once, in front of a witness. It can be applied again.
    pub fn apply(&self, witness: &mut W) -> (op: Op)
        ensures
            op.view() == self.mutation(),
            self.witnessed(*old(witness), *final(witness)),
    {
        self.effect.apply_erased(witness)
    }

    /// The diagnostic form, which reveals nothing.
    pub fn debug_string(&self) -> (s: String)
        ensures
            s@ == "BoxedA { .. }"@,
    {
        String::from_str("BoxedA { .. }")
    }
}

} // verus!
