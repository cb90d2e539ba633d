//! What is known of a system that can be run.

use vstd::prelude::*;

use crate::query::access::{ArchetypeComponentAccess, FilteredAccessSet};

verus! {

/// What is known of a system that can be run.
pub struct RunnableSystemMeta {
    /// What the system accesses.
    pub component_access_set: FilteredAccessSet,
    /// What the system accesses in each archetype.
    pub archetype_component_access: ArchetypeComponentAccess,
    /// Whether the system can be run on any thread.
    pub is_send: bool,
    /// Whether the system needs the world for itself.
    pub is_exclusive: bool,
    /// Whether the system has changes that are applied later.
    pub has_deferred: bool,
}

impl RunnableSystemMeta {
    /// Creates what is known of a system that accesses nothing.
    pub fn new() -> (meta: Self)
        ensures
            meta.is_new(),
    {
        RunnableSystemMeta {
            component_access_set: FilteredAccessSet::new(),
            archetype_component_access: ArchetypeComponentAccess::new(),
            is_send: true,
            is_exclusive: false,
            has_deferred: false,
        }
    }

    /// Whether this is what is known of a system that accesses nothing.
    pub open spec fn is_new(self) -> bool {
        &&& self.component_access_set.combined_access.is_new()
        &&& self.component_access_set.filtered_accesses@.len() == 0
        &&& self.component_access_set.resource_reads@.len() == 0
        &&& self.archetype_component_access.reads_and_writes@.len() == 0
        &&& self.archetype_component_access.writes@.len() == 0
        &&& self.is_send
        &&& !self.is_exclusive
        &&& !self.has_deferred
    }

    /// Returns whether the system can be run on any thread.
    pub fn is_send(&self) -> (is_send: bool)
        ensures
            is_send == self.is_send,
    {
        self.is_send
    }

    /// Returns whether the system needs the world for itself.
    pub fn is_exclusive(&self) -> (is_exclusive: bool)
        ensures
            is_exclusive == self.is_exclusive,
    {
        self.is_exclusive
    }

    /// Returns whether the system has changes that are applied later.
    pub fn has_deferred(&self) -> (has_deferred: bool)
        ensures
            has_deferred == self.has_deferred,
    {
        self.has_deferred
    }

    /// Marks the system as one that can only be run on the main thread.
    pub fn set_non_send(&mut self)
        ensures
            *final(self) == (RunnableSystemMeta { is_send: false, ..*old(self) }),
    {
        self.is_send = false;
    }

    /// Marks the system as one that needs the world for itself.
    pub fn set_is_exclusive(&mut self)
        ensures
            *final(self) == (RunnableSystemMeta { is_exclusive: true, ..*old(self) }),
    {
        self.is_exclusive = true;
    }

    /// Marks the system as one that has changes that are applied later.
    pub fn set_has_deferred(&mut self)
        ensures
            *final(self) == (RunnableSystemMeta { has_deferred: true, ..*old(self) }),
    {
        self.has_deferred = true;
    }
}

} // verus!
