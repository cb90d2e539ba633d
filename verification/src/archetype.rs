//! Archetypes.

use std::sync::Arc;
use vstd::prelude::*;

use crate::component::{contains_id, ComponentId};
use crate::entity::location::{ArchetypeId, TableId};
use crate::observer::archetype_observers::ArchetypeObservers;

verus! {

/// Which observers the components of an archetype have.
#[derive(Clone, Copy, Debug, PartialEq, Eq, Structural)]
pub struct ArchetypeFlags {
    /// Whether a component has observers of its addition.
    pub on_add_observer: bool,
    /// Whether a component has observers of its insertion.
    pub on_insert_observer: bool,
    /// Whether a component has observers of its replacement.
    pub on_replace_observer: bool,
    /// Whether a component has observers of its removal.
    pub on_remove_observer: bool,
    /// Whether a component has observers of the end of its entity.
    pub on_despawn_observer: bool,
}

impl ArchetypeFlags {
    /// No flag.
    #[verifier::allow_in_spec]
    pub fn empty() -> Self
        returns
            (ArchetypeFlags {
                on_add_observer: false,
                on_insert_observer: false,
                on_replace_observer: false,
                on_remove_observer: false,
                on_despawn_observer: false,
            }),
    {
        ArchetypeFlags {
            on_add_observer: false,
            on_insert_observer: false,
            on_replace_observer: false,
            on_remove_observer: false,
            on_despawn_observer: false,
        }
    }
}

/// A set of components that entities have, and the entities that have exactly these.
pub struct Archetype {
    /// The id of the archetype.
    pub id: ArchetypeId,
    /// The id of the table that stores its entities.
    pub table_id: TableId,
    /// The components.
    pub components: Vec<ComponentId>,
    /// The flags.
    pub flags: ArchetypeFlags,
    /// The observers of queries that match the archetype.
    pub observers: Arc<ArchetypeObservers>,
}

impl Archetype {
    /// Whether the entities of the archetype have a component.
    pub open spec fn has(self, id: ComponentId) -> bool {
        self.components@.contains(id)
    }

    /// Returns whether the entities of the archetype have a component.
    pub fn contains(&self, id: ComponentId) -> (found: bool)
        ensures
            found == self.has(id),
    {
        contains_id(&self.components, id)
    }
}

/// All archetypes of a world, by their id.
pub struct Archetypes {
    /// The archetypes.
    pub archetypes: Vec<Archetype>,
}

impl Archetypes {
    /// Whether the archetypes stand where their ids say.
    pub open spec fn wf(self) -> bool {
        &&& self.archetypes@.len() < u32::MAX
        &&& forall|i: int|
            0 <= i < self.archetypes@.len() ==> (#[trigger] self.archetypes@[i]).id.0 == i
    }

    /// Returns the archetype with an id.
    pub fn get(&self, id: ArchetypeId) -> (archetype: Option<&Archetype>)
        ensures
            id.0 < self.archetypes@.len() ==> archetype == Some(&self.archetypes@[id.0 as int]),
            id.0 >= self.archetypes@.len() ==> archetype is None,
    {
        if id.index() < self.archetypes.len() {
            Some(&self.archetypes[id.index()])
        } else {
            None
        }
    }
}

/// The entities of an archetype have the components that it lists.
pub proof fn archetype_has_its_components(archetype: Archetype, id: ComponentId)
    ensures
        archetype.has(id) <==> exists|i: int|
            0 <= i < archetype.components@.len() && archetype.components@[i] == id,
{
}

} // verus!
