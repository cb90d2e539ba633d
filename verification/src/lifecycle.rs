//! The events in the life of a component.

use vstd::prelude::*;

verus! {

/// The key of the event that a component is added to an entity that did not have it.
pub const ADD: usize = 0;

/// The key of the event that a component is inserted into an entity.
pub const INSERT: usize = 1;

/// The key of the event that the value of a component is about to be replaced.
pub const REPLACE: usize = 2;

/// The key of the event that a component is removed from an entity.
pub const REMOVE: usize = 3;

/// The key of the event that an entity is despawned.
pub const DESPAWN: usize = 4;

} // verus!
