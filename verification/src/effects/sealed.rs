//! The supertrait that marks a type as an effect.

use vstd::prelude::*;

verus! {

/// Marks a type as an effect.
pub trait Sealed {

}

} // verus!
