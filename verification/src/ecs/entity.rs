//! Entity handles.

use vstd::prelude::*;

verus! {

/// A handle to one entity: the place of its slot and the generation of the
/// slot at the time the entity was created. A slot that is used again gets a
/// higher generation, so a handle of an earlier entity never names a later one.
#[derive(Debug, Clone, Copy, PartialEq, Eq, Hash, Structural)]
pub struct Entity {
    pub index: usize,
    pub generation: u64,
}

/// The handle given to an operation names no living entity: the entity was
/// destroyed, or the handle never came from this world.
#[derive(Debug, Clone, Copy, PartialEq, Eq, Structural)]
pub struct InvalidEntity {
    pub entity: Entity,
}

} // verus!
