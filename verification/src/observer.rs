//! Central storage for observers, for quick look-ups.
//!
//! - [`Observers`] stores all observers.
//! - It holds several [`CachedObservers`], by the key of the event that is observed. Those
//!   for the events in the life of a component have fields of their own.
//! - [`CachedObservers`] holds maps of runners, by what is targeted.
//!   [`CachedComponentObservers`] is the one for events that target a component.

use std::collections::HashMap;
use vstd::prelude::*;

use crate::component::{copy_ids, ComponentId};
use crate::entity::location::{Location, MaybeLocation};
use crate::entity::Entity;
use crate::lifecycle::{ADD, DESPAWN, INSERT, REMOVE, REPLACE};
use crate::observer::archetype_observers::ArchetypeObserverState;

pub mod archetype_observers;
pub mod laws;

verus! {

/// Identifies the function that is run when an observer is triggered.
#[derive(Clone, Copy, Debug, PartialEq, Eq, Structural, Hash)]
pub struct ObserverRunner(pub usize);

/// The runners of observers, by the bits of the entity of the observer.
pub type ObserverMap = HashMap<u64, ObserverRunner>;

/// Maps of runners, by the bits of an entity that is targeted.
pub type EntityObserverMaps = HashMap<u64, ObserverMap>;

/// An observer and its runner.
#[derive(Clone, Copy)]
pub struct RunnableObserver {
    /// The entity of the observer.
    pub observer: Entity,
    /// The runner of the observer.
    pub runner: ObserverRunner,
}

/// What an observer is told when it is triggered.
pub struct ObserverTrigger {
    /// The entity of the observer.
    pub observer: Entity,
    /// The key of the event.
    pub event_key: usize,
    /// The components that the event targets.
    pub components: Vec<ComponentId>,
    /// The entity that the event targets now.
    pub current_target: Option<Entity>,
    /// The entity that the event targeted at first.
    pub original_target: Option<Entity>,
    /// Where the event was triggered.
    pub caller: MaybeLocation<Location>,
}

/// A runner and what it is to be told.
pub struct ObserverCall {
    /// The runner.
    pub runner: ObserverRunner,
    /// What the runner is told.
    pub trigger: ObserverTrigger,
}

/// Whether all keys of a map are the bits of entities.
pub open spec fn names_entities<V>(map: Map<u64, V>) -> bool {
    forall|key: u64| #[trigger] map.contains_key(key) ==> crate::entity::names_entity(key)
}

/// Whether some observers are those of a map, each of them once.
pub open spec fn lists(observers: Seq<RunnableObserver>, map: Map<u64, ObserverRunner>) -> bool {
    &&& observers.len() == map.dom().len()
    &&& forall|i: int|
        0 <= i < observers.len() ==> map.contains_key(
            (#[trigger] observers[i]).observer.bits() as u64,
        ) && map[observers[i].observer.bits() as u64] == observers[i].runner
            && observers[i].observer.wf()
    &&& forall|i: int, j: int|
        0 <= i < j < observers.len() ==> (#[trigger] observers[i]).observer.bits() != (
        #[trigger] observers[j]).observer.bits()
    &&& forall|key: u64| #[trigger]
        map.contains_key(key) ==> exists|i: int|
            0 <= i < observers.len() && (#[trigger] observers[i]).observer.bits() == key
}

/// Returns the observers of a map, in no particular order.
pub fn list_observers(map: &ObserverMap) -> (observers: Vec<RunnableObserver>)
    requires
        names_entities(map@),
    ensures
        lists(observers@, map@),
{
    let mut observers: Vec<RunnableObserver> = Vec::new();
    let iter = map.iter();
    let ghost all = vstd::std_specs::iter::IteratorSpec::remaining(&iter);
    assert(all == vstd::std_specs::iter::IteratorSpec::remaining(&map.iter()));
    for (key, runner) in entries: iter
        invariant
            names_entities(map@),
            entries.seq() == all,
            forall|i: int|
                0 <= i < all.len() ==> map@.contains_key(*(#[trigger] all[i]).0),
            observers@.len() == entries.index(),
            forall|i: int|
                0 <= i < observers@.len() ==> {
                    &&& (#[trigger] observers@[i]).observer.bits() == *entries.seq()[i].0
                    &&& observers@[i].runner == *entries.seq()[i].1
                    &&& observers@[i].observer.wf()
                },
    {
        observers.push(RunnableObserver { observer: Entity::from_bits(*key), runner: *runner });
    }
    proof {
        assert forall|i: int, j: int| 0 <= i < j < observers@.len() implies (
        #[trigger] observers@[i]).observer.bits() != (#[trigger] observers@[j]).observer.bits() by {
            if all[i].0 == all[j].0 {
                assert(map@[*all[i].0] == *all[i].1);
                assert(map@[*all[j].0] == *all[j].1);
                assert(all[i] == all[j]);
            }
        }
        assert forall|key: u64| #[trigger] map@.contains_key(key) implies exists|i: int|
            0 <= i < observers@.len() && (#[trigger] observers@[i]).observer.bits() == key by {
            assert(all.contains((&key, &map@[key])));
            let i = choose|i: int| 0 <= i < all.len() && all[i] == (&key, &map@[key]);
            assert(observers@[i].observer.bits() == key);
        }
        assert forall|i: int| 0 <= i < observers@.len() implies map@[(
        #[trigger] observers@[i]).observer.bits() as u64] == observers@[i].runner by {
            assert(map@[*all[i].0] == *all[i].1);
        }
    }
    observers
}

/// The observers of one event that target a component.
pub struct CachedComponentObservers {
    /// The observers of events that target the component, on any entity or none.
    pub global_observers: ObserverMap,
    /// The observers of events that target the component on an entity.
    pub entity_component_observers: EntityObserverMaps,
}

/// Whether all maps are by the bits of entities.
pub open spec fn names_entities_in_all(maps: Map<u64, ObserverMap>) -> bool {
    forall|key: u64| #[trigger] maps.contains_key(key) ==> names_entities(maps[key]@)
}

impl CachedComponentObservers {
    /// Whether the maps are by the bits of entities.
    pub open spec fn wf(self) -> bool {
        names_entities(self.global_observers@) && names_entities_in_all(
            self.entity_component_observers@,
        )
    }

    /// Creates a collection without observers.
    pub fn new() -> (observers: Self)
        ensures
            observers.wf(),
            observers.global_observers@ == Map::<u64, ObserverRunner>::empty(),
            observers.entity_component_observers@ == Map::<u64, ObserverMap>::empty(),
    {
        CachedComponentObservers {
            global_observers: HashMap::new(),
            entity_component_observers: HashMap::new(),
        }
    }

    /// Returns the observers of this component, regardless of the entity. They are run
    /// for events that target an entity, too.
    pub fn global_observers(&self) -> (observers: &ObserverMap)
        ensures
            *observers == self.global_observers,
    {
        &self.global_observers
    }

    /// Returns the observers of this component on an entity.
    pub fn entity_component_observers(&self) -> (observers: &EntityObserverMaps)
        ensures
            *observers == self.entity_component_observers,
    {
        &self.entity_component_observers
    }
}

/// The observers of one event.
pub struct CachedObservers {
    /// The observers of the event, regardless of what it targets.
    pub global_observers: ObserverMap,
    /// The observers of the event on a component, by the id of the component.
    pub component_observers: HashMap<usize, CachedComponentObservers>,
    /// The observers of the event on an entity.
    pub entity_observers: EntityObserverMaps,
}

impl CachedObservers {
    /// Whether the maps are by the bits of entities.
    pub open spec fn wf(self) -> bool {
        &&& names_entities(self.global_observers@)
        &&& names_entities_in_all(self.entity_observers@)
        &&& forall|id: usize| #[trigger]
            self.component_observers@.contains_key(id) ==> self.component_observers@[id].wf()
    }

    /// Whether there are no observers.
    pub open spec fn is_new(self) -> bool {
        &&& self.global_observers@ == Map::<u64, ObserverRunner>::empty()
        &&& self.component_observers@ == Map::<usize, CachedComponentObservers>::empty()
        &&& self.entity_observers@ == Map::<u64, ObserverMap>::empty()
    }

    /// Creates a collection without observers.
    pub fn new() -> (observers: Self)
        ensures
            observers.wf(),
            observers.is_new(),
    {
        CachedObservers {
            global_observers: HashMap::new(),
            component_observers: HashMap::new(),
            entity_observers: HashMap::new(),
        }
    }

    /// Returns the observers of the event, regardless of what it targets. They are run
    /// for events that target components or entities, too.
    pub fn global_observers(&self) -> (observers: &ObserverMap)
        ensures
            *observers == self.global_observers,
    {
        &self.global_observers
    }

    /// Returns the observers of the event on components.
    pub fn get_component_observers(&self) -> (observers: &HashMap<usize, CachedComponentObservers>)
        ensures
            *observers == self.component_observers,
    {
        &self.component_observers
    }

    /// Returns the observers of the event on entities.
    pub fn entity_observers(&self) -> (observers: &EntityObserverMaps)
        ensures
            *observers == self.entity_observers,
    {
        &self.entity_observers
    }
}

/// The map for the entity that is targeted, if there is one.
pub open spec fn target_group(maps: Map<u64, ObserverMap>, target: Option<Entity>) -> Seq<
    Map<u64, ObserverRunner>,
> {
    match target {
        Some(entity) => if maps.contains_key(entity.bits() as u64) {
            seq![maps[entity.bits() as u64]@]
        } else {
            Seq::empty()
        },
        None => Seq::empty(),
    }
}

/// The maps for a component that is targeted: first the observers regardless of the
/// entity, and then those of the entity that is targeted.
pub open spec fn component_group(
    observers: Map<usize, CachedComponentObservers>,
    target: Option<Entity>,
    id: ComponentId,
) -> Seq<Map<u64, ObserverRunner>> {
    if observers.contains_key(id.0) {
        seq![observers[id.0].global_observers@] + target_group(
            observers[id.0].entity_component_observers@,
            target,
        )
    } else {
        Seq::empty()
    }
}

/// The maps for the components that are targeted, in their order.
pub open spec fn component_groups(
    observers: Map<usize, CachedComponentObservers>,
    target: Option<Entity>,
    ids: Seq<ComponentId>,
) -> Seq<Map<u64, ObserverRunner>>
    decreases ids.len(),
{
    if ids.len() == 0 {
        Seq::empty()
    } else {
        component_groups(observers, target, ids.drop_last()) + component_group(
            observers,
            target,
            ids.last(),
        )
    }
}

/// The maps of the observers that an event triggers: first those regardless of what it
/// targets, then those of the entity, and then those of the components.
pub open spec fn triggered_groups(
    observers: CachedObservers,
    target: Option<Entity>,
    ids: Seq<ComponentId>,
) -> Seq<Map<u64, ObserverRunner>> {
    seq![observers.global_observers@] + target_group(observers.entity_observers@, target)
        + component_groups(observers.component_observers@, target, ids)
}

/// The observers that some calls run.
pub open spec fn observers_of(calls: Seq<ObserverCall>) -> Seq<RunnableObserver> {
    calls.map_values(
        |call: ObserverCall|
            RunnableObserver { observer: call.trigger.observer, runner: call.runner },
    )
}

/// Whether some calls run the observers of some maps, each map in turn, and each
/// observer of a map once.
pub open spec fn calls_groups(
    calls: Seq<ObserverCall>,
    groups: Seq<Map<u64, ObserverRunner>>,
) -> bool
    decreases groups.len(),
{
    if groups.len() == 0 {
        calls.len() == 0
    } else {
        let n = groups.last().dom().len() as int;
        &&& n <= calls.len()
        &&& lists(observers_of(calls.skip(calls.len() - n)), groups.last())
        &&& calls_groups(calls.take(calls.len() - n), groups.drop_last())
    }
}

/// An event, apart from the components that it targets.
#[derive(Clone, Copy)]
pub struct Event {
    /// The key of the event.
    pub event_key: usize,
    /// The entity that the event targets now.
    pub current_target: Option<Entity>,
    /// The entity that the event targeted at first.
    pub original_target: Option<Entity>,
    /// Where the event was triggered.
    pub caller: MaybeLocation<Location>,
}

impl Event {
    /// Whether a trigger tells of this event on some components.
    pub open spec fn tells(self, trigger: ObserverTrigger, ids: Seq<ComponentId>) -> bool {
        &&& trigger.event_key == self.event_key
        &&& trigger.components@ == ids
        &&& trigger.current_target == self.current_target
        &&& trigger.original_target == self.original_target
        &&& trigger.caller == self.caller
    }

    /// Whether all calls tell of this event on some components.
    pub open spec fn tells_all(self, calls: Seq<ObserverCall>, ids: Seq<ComponentId>) -> bool {
        forall|i: int| 0 <= i < calls.len() ==> self.tells((#[trigger] calls[i]).trigger, ids)
    }

    /// Makes the call for an observer.
    fn call(&self, observer: RunnableObserver, ids: &Vec<ComponentId>) -> (call: ObserverCall)
        ensures
            self.tells(call.trigger, ids@),
            call.trigger.observer == observer.observer,
            call.runner == observer.runner,
    {
        ObserverCall {
            runner: observer.runner,
            trigger: ObserverTrigger {
                observer: observer.observer,
                event_key: self.event_key,
                components: copy_ids(ids),
                current_target: self.current_target,
                original_target: self.original_target,
                caller: self.caller,
            },
        }
    }

    /// Adds the calls for the observers of a map.
    fn trigger_group(
        &self,
        calls: &mut Vec<ObserverCall>,
        map: &ObserverMap,
        ids: &Vec<ComponentId>,
        Ghost(groups): Ghost<Seq<Map<u64, ObserverRunner>>>,
    )
        requires
            names_entities(map@),
            calls_groups(old(calls)@, groups),
            self.tells_all(old(calls)@, ids@),
        ensures
            calls_groups(final(calls)@, groups.push(map@)),
            self.tells_all(final(calls)@, ids@),
    {
        let observers = list_observers(map);
        let mut i: usize = 0;
        while i < observers.len()
            invariant
                i <= observers@.len(),
                calls@.len() == old(calls)@.len() + i,
                calls@.take(old(calls)@.len() as int) == old(calls)@,
                observers_of(calls@.skip(old(calls)@.len() as int)) == observers@.take(i as int),
                self.tells_all(calls@, ids@),
            decreases observers@.len() - i,
        {
            let ghost before = calls@;
            calls.push(self.call(observers[i], ids));
            proof {
                let n = old(calls)@.len() as int;
                assert(calls@.take(n) =~= before.take(n));
                assert(observers_of(calls@.skip(n)) =~= observers@.take(i + 1));
            }
            i = i + 1;
        }
        proof {
            assert(observers@.take(i as int) =~= observers@);
            assert(groups.push(map@).drop_last() =~= groups);
        }
    }

    /// Adds the calls for the observers of the entity that is targeted.
    fn trigger_target(
        &self,
        calls: &mut Vec<ObserverCall>,
        maps: &EntityObserverMaps,
        ids: &Vec<ComponentId>,
        Ghost(groups): Ghost<Seq<Map<u64, ObserverRunner>>>,
    )
        requires
            names_entities_in_all(maps@),
            calls_groups(old(calls)@, groups),
            self.tells_all(old(calls)@, ids@),
        ensures
            calls_groups(final(calls)@, groups + target_group(maps@, self.current_target)),
            self.tells_all(final(calls)@, ids@),
    {
        assert(groups + Seq::<Map<u64, ObserverRunner>>::empty() =~= groups);
        match self.current_target {
            Some(entity) => {
                match maps.get(&entity.to_bits()) {
                    Some(map) => {
                        self.trigger_group(calls, map, ids, Ghost(groups));
                        assert(groups + seq![map@] =~= groups.push(map@));
                    },
                    None => {},
                }
            },
            None => {},
        }
    }
}

/// All observers of a world.
pub struct Observers {
    /// The observers of components that are added.
    pub add: CachedObservers,
    /// The observers of components that are inserted.
    pub insert: CachedObservers,
    /// The observers of components that are replaced.
    pub replace: CachedObservers,
    /// The observers of components that are removed.
    pub remove: CachedObservers,
    /// The observers of entities that are despawned.
    pub despawn: CachedObservers,
    /// The observers of all other events, by the key of the event.
    pub cache: HashMap<usize, CachedObservers>,
    /// The observers that are run when an entity comes to match a query.
    pub enter: HashMap<u64, ArchetypeObserverState>,
    /// The observers that are run when an entity ceases to match a query.
    pub leave: HashMap<u64, ArchetypeObserverState>,
    /// The number of sets of observers of archetypes that have been made.
    pub archetype_sets: u64,
}

impl Observers {
    /// Whether all maps are by the bits of entities.
    pub open spec fn wf(self) -> bool {
        &&& self.add.wf()
        &&& self.insert.wf()
        &&& self.replace.wf()
        &&& self.remove.wf()
        &&& self.despawn.wf()
        &&& forall|key: usize| #[trigger]
            self.cache@.contains_key(key) ==> self.cache@[key].wf()
        &&& names_entities(self.enter@)
        &&& names_entities(self.leave@)
    }

    /// The observers of an event.
    pub open spec fn observers_for(self, event_key: usize) -> Option<CachedObservers> {
        if event_key == ADD {
            Some(self.add)
        } else if event_key == INSERT {
            Some(self.insert)
        } else if event_key == REPLACE {
            Some(self.replace)
        } else if event_key == REMOVE {
            Some(self.remove)
        } else if event_key == DESPAWN {
            Some(self.despawn)
        } else if self.cache@.contains_key(event_key) {
            Some(self.cache@[event_key])
        } else {
            None
        }
    }

    /// Creates a collection without observers.
    pub fn new() -> (observers: Self)
        ensures
            observers.wf(),
            observers.add.is_new(),
            observers.insert.is_new(),
            observers.replace.is_new(),
            observers.remove.is_new(),
            observers.despawn.is_new(),
            observers.cache@ == Map::<usize, CachedObservers>::empty(),
            observers.enter@ == Map::<u64, ArchetypeObserverState>::empty(),
            observers.leave@ == Map::<u64, ArchetypeObserverState>::empty(),
            observers.archetype_sets == 0,
    {
        Observers {
            add: CachedObservers::new(),
            insert: CachedObservers::new(),
            replace: CachedObservers::new(),
            remove: CachedObservers::new(),
            despawn: CachedObservers::new(),
            cache: HashMap::new(),
            enter: HashMap::new(),
            leave: HashMap::new(),
            archetype_sets: 0,
        }
    }

    /// Returns the observers of an event, to change them. Makes room for them if there
    /// are none yet.
    pub fn get_observers_mut(&mut self, event_key: usize) -> (observers: &mut CachedObservers)
        ensures
            old(self).observers_for(event_key) matches Some(cached) ==> *observers == cached,
            old(self).observers_for(event_key) is None ==> observers.is_new(),
            final(self).observers_for(event_key) == Some(*final(observers)),
            forall|other: usize|
                other != event_key ==> #[trigger] final(self).observers_for(other) == old(
                    self,
                ).observers_for(other),
            final(self).enter == old(self).enter,
            final(self).leave == old(self).leave,
            final(self).archetype_sets == old(self).archetype_sets,
            old(self).wf() ==> observers.wf(),
            old(self).wf() && final(observers).wf() ==> final(self).wf(),
    {
        if event_key == ADD {
            &mut self.add
        } else if event_key == INSERT {
            &mut self.insert
        } else if event_key == REPLACE {
            &mut self.replace
        } else if event_key == REMOVE {
            &mut self.remove
        } else if event_key == DESPAWN {
            &mut self.despawn
        } else {
            self.cache.entry(event_key).or_insert(CachedObservers::new())
        }
    }

    /// Returns the observers of an event, if there are any.
    pub fn try_get_observers(&self, event_key: usize) -> (observers: Option<&CachedObservers>)
        ensures
            self.observers_for(event_key) matches Some(cached) ==> observers == Some(&cached),
            self.observers_for(event_key) is None ==> observers is None,
    {
        if event_key == ADD {
            Some(&self.add)
        } else if event_key == INSERT {
            Some(&self.insert)
        } else if event_key == REPLACE {
            Some(&self.replace)
        } else if event_key == REMOVE {
            Some(&self.remove)
        } else if event_key == DESPAWN {
            Some(&self.despawn)
        } else {
            self.cache.get(&event_key)
        }
    }

    /// Returns the calls for observers of a query, in their order.
    pub fn invoke_query_observers(
        event_key: usize,
        target: Entity,
        observers: &Vec<RunnableObserver>,
        caller: MaybeLocation<Location>,
    ) -> (calls: Vec<ObserverCall>)
        ensures
            observers_of(calls@) == observers@,
            (Event {
                event_key,
                current_target: Some(target),
                original_target: Some(target),
                caller,
            }).tells_all(calls@, Seq::empty()),
    {
        let event = Event {
            event_key,
            current_target: Some(target),
            original_target: Some(target),
            caller,
        };
        let ids: Vec<ComponentId> = Vec::new();
        let mut calls: Vec<ObserverCall> = Vec::new();
        let mut i: usize = 0;
        while i < observers.len()
            invariant
                i <= observers@.len(),
                observers_of(calls@) == observers@.take(i as int),
                event.tells_all(calls@, Seq::empty()),
                ids@ == Seq::<ComponentId>::empty(),
            decreases observers@.len() - i,
        {
            let ghost before = calls@;
            calls.push(event.call(observers[i], &ids));
            proof {
                assert(observers_of(calls@) =~= observers_of(before).push(observers@[i as int]));
                assert(observers@.take(i + 1) =~= observers@.take(i as int).push(
                    observers@[i as int],
                ));
            }
            i = i + 1;
        }
        assert(observers@.take(i as int) =~= observers@);
        calls
    }

    /// Counts the event, and returns the calls for the observers that it triggers.
    pub fn invoke(
        &self,
        last_trigger_id: &mut u32,
        event: Event,
        components: &Vec<ComponentId>,
    ) -> (calls: Vec<ObserverCall>)
        requires
            self.wf(),
        ensures
            *final(last_trigger_id) == (*old(last_trigger_id) + 1) % 0x1_0000_0000,
            event.tells_all(calls@, components@),
            self.observers_for(event.event_key) is None ==> calls@.len() == 0,
            self.observers_for(event.event_key) matches Some(cached) ==> calls_groups(
                calls@,
                triggered_groups(cached, event.current_target, components@),
            ),
    {
        *last_trigger_id = last_trigger_id.wrapping_add(1);
        let mut calls: Vec<ObserverCall> = Vec::new();
        let observers = match self.try_get_observers(event.event_key) {
            Some(observers) => observers,
            None => {
                return calls;
            },
        };
        let ghost mut groups = Seq::<Map<u64, ObserverRunner>>::empty();
        // The observers of any kind of this event.
        event.trigger_group(&mut calls, &observers.global_observers, components, Ghost(groups));
        proof {
            groups = groups.push(observers.global_observers@);
        }
        // The observers of this event on the entity.
        event.trigger_target(&mut calls, &observers.entity_observers, components, Ghost(groups));
        proof {
            groups = groups + target_group(
                observers.entity_observers@,
                event.current_target,
            );
        }
        let ghost first = groups;
        // The observers of this event on the components.
        let mut i: usize = 0;
        assert(first + component_groups(
            observers.component_observers@,
            event.current_target,
            components@.take(0),
        ) =~= first);
        while i < components.len()
            invariant
                observers.wf(),
                i <= components@.len(),
                event.tells_all(calls@, components@),
                groups == first + component_groups(
                    observers.component_observers@,
                    event.current_target,
                    components@.take(i as int),
                ),
                calls_groups(calls@, groups),
            decreases components@.len() - i,
        {
            let id = components[i];
            let ghost before = groups;
            match observers.component_observers.get(&id.0) {
                Some(component_observers) => {
                    event.trigger_group(
                        &mut calls,
                        &component_observers.global_observers,
                        components,
                        Ghost(groups),
                    );
                    proof {
                        groups = groups.push(component_observers.global_observers@);
                    }
                    event.trigger_target(
                        &mut calls,
                        &component_observers.entity_component_observers,
                        components,
                        Ghost(groups),
                    );
                    proof {
                        groups = groups + target_group(
                            component_observers.entity_component_observers@,
                            event.current_target,
                        );
                    }
                },
                None => {},
            }
            proof {
                assert(groups =~= before + component_group(
                    observers.component_observers@,
                    event.current_target,
                    id,
                ));
                assert(components@.take(i + 1).drop_last() =~= components@.take(i as int));
                assert(groups =~= first + component_groups(
                    observers.component_observers@,
                    event.current_target,
                    components@.take(i + 1),
                ));
            }
            i = i + 1;
        }
        proof {
            assert(components@.take(i as int) =~= components@);
            assert(groups =~= triggered_groups(*observers, event.current_target, components@));
        }
        calls
    }
}

} // verus!
