//! The closed set of coercion modes a declaration can request.

use vstd::prelude::*;

verus! {

/// How a conversion consumes its input: `Borrowed` views the source in
/// place, `Owned` consumes it, and `Cloned` duplicates it first and then
/// reinterprets the duplicate.
#[derive(Clone, Copy, Debug, PartialEq, Eq, Structural)]
pub enum CoercionMode {
    Borrowed,
    Owned,
    Cloned,
}

impl CoercionMode {
    /// A cloned conversion must duplicate the whole source value before
    /// reinterpreting it, so that the original keeps its resources.
    pub fn requires_duplicate_first(&self) -> (r: bool)
        ensures
            r == (*self is Cloned),
    {
        match self {
            CoercionMode::Cloned => true,
            _ => false,
        }
    }
}

} // verus!
