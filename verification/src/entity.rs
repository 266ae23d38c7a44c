//! Entity identifiers and their allocation order.

use vstd::prelude::*;

verus! {

/// Identifier of an entity. Identifiers are handed out in increasing order
/// and never reused.
pub type EntityID = u32;

/// A type whose values are allocated one after another.
pub trait ID: Sized {
    /// Whether a successor of `self` exists.
    spec fn has_next(&self) -> bool;

    /// The successor of `self`.
    spec fn successor(&self) -> Self;

    /// Returns the identifier that follows `self`.
    fn next(&self) -> (r: Self)
        requires
            self.has_next(),
        ensures
            r == self.successor(),
    ;
}

impl ID for u32 {
    open spec fn has_next(&self) -> bool {
        *self < u32::MAX
    }

    open spec fn successor(&self) -> u32 {
        (*self + 1) as u32
    }

    fn next(&self) -> (r: u32) {
        *self + 1
    }
}

} // verus!
