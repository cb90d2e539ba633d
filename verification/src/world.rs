//! The world.

use vstd::prelude::*;

use crate::archetype::{Archetype, ArchetypeFlags};
use crate::component::{replace_components, Component, ComponentId};
use crate::entity::allocator::ENTITY_BLOCK;
use crate::entity::Entity;
use crate::observer::archetype_observers::ArchetypeObserverState;
use crate::observer::{CachedComponentObservers, CachedObservers, Observers};
use crate::world::command_queue::CommandQueue;
use crate::world::storages::Storages;

pub mod command;
pub mod command_queue;
pub mod entity_command;
pub mod entity_laws;
pub mod laws;
pub mod placement_laws;
pub mod queue_laws;
pub mod run_laws;
pub mod runner;
pub mod storages;

verus! {

/// Identifies a world. No two worlds of a program have the same identifier.
#[derive(Clone, Copy, Debug, PartialEq, Eq, Hash, PartialOrd, Ord, Structural)]
pub struct WorldId(pub usize);

/// Holds what systems and commands work on.
pub struct World<C, R> {
    /// The identifier of the world.
    pub id: WorldId,
    /// The entities and their components.
    pub storages: Storages,
    /// The observers.
    pub observers: Observers,
    /// The number of events that have been triggered.
    pub last_trigger_id: u32,
    /// The queue of the commands that the world will run.
    pub command_queue: CommandQueue<C>,
    /// The resources of the program.
    pub resources: R,
    /// Whether the panic that is being handled comes from an error handler.
    pub panic_originates_from_error_handler: bool,
    /// The number of command frames that ended in this world and began in another one, since
    /// the program last asked.
    pub replacements: u64,
}

/// Whether one of some components has observers.
pub open spec fn is_observed(
    observers: Map<usize, CachedComponentObservers>,
    ids: Seq<ComponentId>,
) -> bool {
    exists|i: int| 0 <= i < ids.len() && observers.contains_key((#[trigger] ids[i]).0)
}

/// Whether an archetype has the flags and the observers for its components.
pub open spec fn suits(archetype: Archetype, observers: Observers) -> bool {
    let ids = archetype.components@;
    &&& archetype.flags.on_add_observer == is_observed(observers.add.component_observers@, ids)
    &&& archetype.flags.on_insert_observer == is_observed(
        observers.insert.component_observers@,
        ids,
    )
    &&& archetype.flags.on_replace_observer == is_observed(
        observers.replace.component_observers@,
        ids,
    )
    &&& archetype.flags.on_remove_observer == is_observed(
        observers.remove.component_observers@,
        ids,
    )
    &&& archetype.flags.on_despawn_observer == is_observed(
        observers.despawn.component_observers@,
        ids,
    )
    &&& crate::observer::archetype_observers::lists_matching(
        archetype.observers.enter@,
        observers.enter@,
        ids,
    )
    &&& crate::observer::archetype_observers::lists_matching(
        archetype.observers.leave@,
        observers.leave@,
        ids,
    )
}

proof fn one_more_is_observed(
    observers: Map<usize, CachedComponentObservers>,
    ids: Seq<ComponentId>,
    id: ComponentId,
)
    ensures
        is_observed(observers, ids.push(id)) == (is_observed(observers, ids)
            || observers.contains_key(id.0)),
{
    let all = ids.push(id);
    if is_observed(observers, ids) {
        let i = choose|i: int|
            0 <= i < ids.len() && observers.contains_key((#[trigger] ids[i]).0);
        assert(all[i] == ids[i]);
    }
    if observers.contains_key(id.0) {
        assert(all[ids.len() as int] == id);
    }
    if is_observed(observers, all) {
        let i = choose|i: int|
            0 <= i < all.len() && observers.contains_key((#[trigger] all[i]).0);
        if i < ids.len() {
            assert(ids[i] == all[i]);
        }
    }
}

impl<C, R> World<C, R> {
    /// Whether the parts of the world are well-formed.
    pub open(crate) spec fn wf(self) -> bool {
        self.command_queue.wf() && self.storages.wf() && self.observers.wf()
    }

    /// The world with its record of where a panic comes from set to a value.
    pub open spec fn with_panic_origin(self, from_error_handler: bool) -> Self {
        World { panic_originates_from_error_handler: from_error_handler, ..self }
    }

    /// The values of the components of an entity, if it is alive.
    pub open(crate) spec fn values(self, entity: Entity) -> Option<Map<ComponentId, u64>> {
        self.storages.values(entity)
    }

    /// The number of live entities.
    pub open(crate) spec fn live(self) -> int {
        self.storages.entities@.live()
    }

    /// The number of indices of entities that have been allocated.
    pub open(crate) spec fn allocated(self) -> int {
        self.storages.entities@.allocator.next
    }

    /// Whether there is an archetype for the given components.
    pub open spec fn has_archetype(self, components: Seq<Component>) -> bool {
        exists|i: int| self.storages.fits(i, components)
    }

    /// Whether there is an archetype for the given components, or one can be added.
    pub open spec fn can_have_archetype(self, components: Seq<Component>) -> bool {
        self.has_archetype(components) || self.storages.archetypes.archetypes@.len() + 1 < u32::MAX
            && self.observers.archetype_sets < u64::MAX
    }

    /// Whether there are indices left to allocate an entity, whichever thread asks.
    pub open(crate) spec fn can_allocate(self) -> bool {
        self.allocated() + 1 + ENTITY_BLOCK <= u32::MAX
    }

    /// Whether two worlds differ at most in what is stored of entities, and in the number of
    /// sets of observers of archetypes.
    pub open spec fn same_but_entities(self, other: Self) -> bool {
        self == (World {
            storages: self.storages,
            observers: Observers {
                archetype_sets: self.observers.archetype_sets,
                ..other.observers
            },
            ..other
        })
    }

    /// Whether all entities of another world have been taken out: their indices wait to be
    /// reused, no row is left, and nothing else differs.
    pub open(crate) spec fn has_cleared(self, other: Self) -> bool {
        &&& self == (World { storages: self.storages, ..other })
        &&& self.storages.archetypes == other.storages.archetypes
        &&& other.storages.entities@.may_clear_to(self.storages.entities@)
        &&& forall|i: int, row: int| !#[trigger] self.storages.has_row(i, row)
    }

    /// Whether the values of all entities but one are the same in two worlds.
    pub open(crate) spec fn others_same(self, other: Self, entity: Entity) -> bool {
        forall|e: Entity| e.wf() && e != entity ==> #[trigger] self.values(e) == other.values(e)
    }

    /// Whether the archetypes of another world are there, and each archetype that was added has
    /// the flags and the observers for its components.
    pub open(crate) spec fn keeps_archetypes(self, other: Self) -> bool {
        let before = other.storages.archetypes.archetypes@;
        let after = self.storages.archetypes.archetypes@;
        &&& before.len() <= after.len()
        &&& after.take(before.len() as int) == before
        &&& forall|i: int|
            before.len() <= i < after.len() ==> suits(#[trigger] after[i], other.observers)
    }

    /// Creates a world without entities, observers and commands.
    pub fn new(id: WorldId, resources: R) -> (world: Self)
        ensures
            world.wf(),
            world.id == id,
            world.resources == resources,
            world.command_queue.commands() == Seq::<C>::empty(),
            world.command_queue.start == 0,
            world.command_queue.end == 0,
            world.command_queue.layout.size == 0,
            world.command_queue.layout.align
                == crate::world::command_queue::MIN_COMMAND_QUEUE_ALIGN,
            !world.command_queue.owned,
            world.live() == 0,
            world.allocated() == 0,
            world.last_trigger_id == 0,
            !world.panic_originates_from_error_handler,
            world.replacements == 0,
            world.storages.archetypes.archetypes@.len() == 0,
            forall|entity: Entity| world.values(entity) is None,
            world.storages.entities@ == crate::entity::entities::EntitiesState::new_spec(false),
            world.command_queue.warn_on_unapplied,
            world.command_queue.caller is Off,
            world.observers.add.is_new(),
            world.observers.insert.is_new(),
            world.observers.replace.is_new(),
            world.observers.remove.is_new(),
            world.observers.despawn.is_new(),
            world.observers.cache@ == Map::<usize, CachedObservers>::empty(),
            world.observers.enter@ == Map::<u64, ArchetypeObserverState>::empty(),
            world.observers.leave@ == Map::<u64, ArchetypeObserverState>::empty(),
            world.observers.archetype_sets == 0,
    {
        World {
            id,
            storages: Storages::new(),
            observers: Observers::new(),
            last_trigger_id: 0,
            command_queue: CommandQueue::new(),
            resources,
            panic_originates_from_error_handler: false,
            replacements: 0,
        }
    }

    /// Returns the number of command frames that ended in this world and began in another one,
    /// and starts to count again.
    pub fn take_replacements(&mut self) -> (replacements: u64)
        ensures
            replacements == old(self).replacements,
            *final(self) == (World { replacements: 0, ..*old(self) }),
    {
        let replacements: u64 = self.replacements;
        self.replacements = 0;
        replacements
    }

    /// Returns the queue of the commands that the world will run.
    pub fn commands(&mut self) -> (queue: &mut CommandQueue<C>)
        ensures
            *queue == old(self).command_queue,
            *final(self) == (World { command_queue: *final(queue), ..*old(self) }),
    {
        &mut self.command_queue
    }

    /// Returns the archetype for the given components. Adds it if there is none.
    fn archetype_for(&mut self, components: &Vec<Component>) -> (archetype: usize)
        requires
            old(self).wf(),
            crate::component::distinct_components(components@),
            old(self).can_have_archetype(components@),
        ensures
            final(self).wf(),
            final(self).storages.fits(archetype as int, components@),
            final(self).storages.entities == old(self).storages.entities,
            final(self).same_but_entities(*old(self)),
            old(self).has_archetype(components@) ==> *final(self) == *old(self),
            forall|e: Entity| #[trigger] final(self).values(e) == old(self).values(e),
            final(self).storages.archetypes.archetypes@.len()
                <= old(self).storages.archetypes.archetypes@.len() + 1,
            final(self).observers.archetype_sets <= old(self).observers.archetype_sets + 1,
            final(self).keeps_archetypes(*old(self)),
    {
        assert(self.storages.archetypes.archetypes@.take(
            self.storages.archetypes.archetypes@.len() as int,
        ) =~= self.storages.archetypes.archetypes@);
        match self.storages.find_archetype(components) {
            Some(archetype) => archetype,
            None => {
                let mut flags = ArchetypeFlags::empty();
                let mut ids: Vec<ComponentId> = Vec::new();
                let mut i: usize = 0;
                while i < components.len()
                    invariant
                        i <= components@.len(),
                        ids@ == crate::storage::ids_of(components@).take(i as int),
                        flags.on_add_observer == is_observed(
                            self.observers.add.component_observers@,
                            ids@,
                        ),
                        flags.on_insert_observer == is_observed(
                            self.observers.insert.component_observers@,
                            ids@,
                        ),
                        flags.on_replace_observer == is_observed(
                            self.observers.replace.component_observers@,
                            ids@,
                        ),
                        flags.on_remove_observer == is_observed(
                            self.observers.remove.component_observers@,
                            ids@,
                        ),
                        flags.on_despawn_observer == is_observed(
                            self.observers.despawn.component_observers@,
                            ids@,
                        ),
                    decreases components@.len() - i,
                {
                    let id = components[i].id;
                    proof {
                        let seen = ids@;
                        one_more_is_observed(self.observers.add.component_observers@, seen, id);
                        one_more_is_observed(self.observers.insert.component_observers@, seen, id);
                        one_more_is_observed(self.observers.replace.component_observers@, seen, id);
                        one_more_is_observed(self.observers.remove.component_observers@, seen, id);
                        one_more_is_observed(self.observers.despawn.component_observers@, seen, id);
                    }
                    self.observers.update_archetype_flags(id, &mut flags);
                    ids.push(id);
                    assert(ids@ =~= crate::storage::ids_of(components@).take(i + 1));
                    i = i + 1;
                }
                assert(ids@ =~= crate::storage::ids_of(components@));
                let observers = self.observers.get_archetype_observers(&ids);
                let archetype: usize = self.storages.add_archetype(components, flags, observers);
                proof {
                    let before = old(self).storages.archetypes.archetypes@;
                    let after = self.storages.archetypes.archetypes@;
                    assert(after.take(before.len() as int) =~= after.drop_last());
                    assert(suits(after[before.len() as int], old(self).observers));
                }
                archetype
            },
        }
    }

    /// Spawns an entity with the given components.
    pub fn spawn(&mut self, components: &Vec<Component>) -> (entity: Entity)
        requires
            old(self).wf(),
            crate::component::distinct_components(components@),
            old(self).can_have_archetype(components@),
            old(self).can_allocate(),
        ensures
            final(self).wf(),
            old(self).values(entity) is None,
            final(self).values(entity) == Some(crate::component::values_of(components@)),
            final(self).others_same(*old(self), entity),
            final(self).live() == old(self).live() + 1,
            final(self).same_but_entities(*old(self)),
            final(self).has_archetype(components@),
            old(self).has_archetype(components@) ==> final(self).observers == old(self).observers
                && final(self).storages.archetypes == old(self).storages.archetypes,
            final(self).allocated() <= old(self).allocated() + 1 + ENTITY_BLOCK,
            final(self).storages.archetypes.archetypes@.len()
                <= old(self).storages.archetypes.archetypes@.len() + 1,
            final(self).observers.archetype_sets <= old(self).observers.archetype_sets + 1,
            final(self).keeps_archetypes(*old(self)),
            exists|slot: int|
                {
                    &&& #[trigger] old(self).storages.entities@.allocator.has_slot(slot)
                    &&& entity == old(self).storages.entities@.allocator.reserved(slot)
                    &&& final(self).storages.entities@.allocator == old(
                        self,
                    ).storages.entities@.allocator.after_reserve(slot)
                },
    {
        let entity = self.storages.reserve();
        proof {
            use_type_invariant(&entity);
        }
        let ghost reserved = *self;
        assert(reserved.has_archetype(components@) == old(self).has_archetype(components@)) by {
            assert forall|i: int|
                #![trigger reserved.storages.fits(i, components@)]
                #![trigger old(self).storages.fits(i, components@)]
                reserved.storages.fits(i, components@) == old(self).storages.fits(
                    i,
                    components@,
                ) by {
                assert(reserved.storages.archetype(i) == old(self).storages.archetype(i));
            }
        }
        let archetype: usize = self.archetype_for(components);
        let ghost found = *self;
        self.storages.push_row(archetype, entity, components);
        proof {
            assert(self.storages.fits(archetype as int, components@));
            assert forall|e: Entity| e.wf() && e != entity implies #[trigger] self.values(e) == old(
                self,
            ).values(e) by {
                assert(self.storages.values(e) == found.storages.values(e));
                assert(found.values(e) == reserved.values(e));
                assert(reserved.storages.values(e) == old(self).storages.values(e));
            }
        }
        entity
    }

    /// Gives an entity the given components, in place of those that it has already. Returns
    /// whether the entity is alive.
    pub fn insert(&mut self, entity: Entity, components: &Vec<Component>) -> (inserted: bool)
        requires
            old(self).wf(),
            crate::component::distinct_components(components@),
            old(self).storages.archetypes.archetypes@.len() + 1 < u32::MAX,
            old(self).observers.archetype_sets < u64::MAX,
        ensures
            final(self).wf(),
            inserted == (old(self).values(entity) is Some),
            !inserted ==> *final(self) == *old(self),
            inserted ==> final(self).values(entity) == Some(
                old(self).values(entity)->0.union_prefer_right(
                    crate::component::values_of(components@),
                ),
            ),
            final(self).others_same(*old(self), entity),
            final(self).live() == old(self).live(),
            final(self).allocated() == old(self).allocated(),
            final(self).same_but_entities(*old(self)),
            final(self).storages.archetypes.archetypes@.len()
                <= old(self).storages.archetypes.archetypes@.len() + 1,
            final(self).observers.archetype_sets <= old(self).observers.archetype_sets + 1,
            final(self).keeps_archetypes(*old(self)),
            final(self).storages.entities@.allocator == old(self).storages.entities@.allocator,
    {
        if self.storages.entities.get(entity).is_none() {
            assert(self.storages.archetypes.archetypes@.take(
                self.storages.archetypes.archetypes@.len() as int,
            ) =~= self.storages.archetypes.archetypes@);
            return false;
        }
        let present = self.storages.take_row(entity);
        let ghost taken = *self;
        let all = replace_components(&present, components);
        let archetype: usize = self.archetype_for(&all);
        let ghost found = *self;
        self.storages.push_row(archetype, entity, &all);
        proof {
            assert forall|e: Entity| e.wf() && e != entity implies #[trigger] self.values(e) == old(
                self,
            ).values(e) by {
                assert(self.storages.values(e) == found.storages.values(e));
                assert(found.values(e) == taken.values(e));
                assert(taken.storages.values(e) == old(self).storages.values(e));
            }
        }
        true
    }

    /// Takes out all entities.
    pub fn clear_entities(&mut self)
        requires
            old(self).wf(),
        ensures
            final(self).wf(),
            final(self).live() == 0,
            forall|entity: Entity| final(self).values(entity) is None,
            final(self).allocated() == old(self).allocated(),
            final(self).has_cleared(*old(self)),
    {
        self.storages.clear_entities();
    }
}

} // verus!
