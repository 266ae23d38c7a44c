//! The interface of a schema: the aggregate that owns one container per
//! component type and hands them out by type.

use vstd::prelude::*;

verus! {

/// Shared access to the containers that `R` names, for example a pair of
/// references to two containers of a world.
pub trait GetComponent<'a, R> where R: 'a {
    /// The containers, to be read.
    fn get_component(&'a self) -> R;
}

/// Access to the containers that `R` names with the first of them exclusive,
/// so that a pass can write to its primary container while it reads the
/// others.
pub trait GetComponentMut<'a, R> where R: 'a {
    /// The containers, the first to be written and the others to be read.
    fn get_component_mut(&'a mut self) -> R;
}

} // verus!
