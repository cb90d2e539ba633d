//! Observers of queries.

use std::collections::HashMap;
use std::sync::Arc;
use vstd::prelude::*;

use crate::archetype::{ArchetypeFlags, Archetypes};
use crate::component::ComponentId;
use crate::entity::location::ArchetypeId;
use crate::entity::Entity;
use crate::lifecycle::{ADD, DESPAWN, INSERT, REMOVE, REPLACE};
use crate::observer::{Observers, ObserverRunner, RunnableObserver};
use crate::query::access::FilteredAccess;

verus! {

broadcast use crate::entity::generation::group_generation;

/// An observer that is run when an entity comes to match a query or ceases to.
pub struct ArchetypeObserverState {
    /// The runner of the observer.
    pub runner: ObserverRunner,
    /// What the query of the observer accesses.
    pub access: FilteredAccess,
}

impl ArchetypeObserverState {
    /// Whether the query reads one of some components or looks at its presence.
    pub open spec fn sees_change(self, components: Seq<ComponentId>) -> bool {
        exists|i: int|
            0 <= i < components.len() && (self.access.access.reads(#[trigger] components[i])
                || self.access.access.looks_at(components[i]))
    }

    /// Whether the query reads one of some components.
    pub open spec fn sees_value(self, components: Seq<ComponentId>) -> bool {
        exists|i: int|
            0 <= i < components.len() && self.access.access.reads(#[trigger] components[i])
    }

    /// Returns whether the query reads one of some components, which are inserted or
    /// removed, or looks at its presence.
    pub fn matches_changed(&self, components: &Vec<ComponentId>) -> (matches: bool)
        ensures
            matches == self.sees_change(components@),
    {
        let mut i: usize = 0;
        while i < components.len()
            invariant
                i <= components@.len(),
                forall|k: int|
                    0 <= k < i ==> !self.access.access.reads(#[trigger] components@[k])
                        && !self.access.access.looks_at(components@[k]),
            decreases components@.len() - i,
        {
            if self.access.access.has_component_read(components[i])
                || self.access.access.has_archetypal(components[i]) {
                return true;
            }
            i = i + 1;
        }
        false
    }

    /// Returns whether the query reads one of some components, which stay.
    pub fn matches_existing(&self, components: &Vec<ComponentId>) -> (matches: bool)
        ensures
            matches == self.sees_value(components@),
    {
        let mut i: usize = 0;
        while i < components.len()
            invariant
                i <= components@.len(),
                forall|k: int|
                    0 <= k < i ==> !self.access.access.reads(#[trigger] components@[k]),
            decreases components@.len() - i,
        {
            if self.access.access.has_component_read(components[i]) {
                return true;
            }
            i = i + 1;
        }
        false
    }
}

/// The observers of queries that match an archetype.
pub struct ArchetypeObservers {
    /// The number of this set among all sets that were made for a world.
    pub number: u64,
    /// The observers that are run when an entity comes to match.
    pub enter: Vec<RunnableObserver>,
    /// The observers that are run when an entity ceases to match.
    pub leave: Vec<RunnableObserver>,
}

/// Whether an observer is among some others.
pub open spec fn has_observer(observers: Seq<RunnableObserver>, observer: Entity) -> bool {
    exists|i: int| 0 <= i < observers.len() && (#[trigger] observers[i]).observer == observer
}

/// Returns whether an observer is among some others.
pub fn contains_observer(observers: &Vec<RunnableObserver>, observer: Entity) -> (found: bool)
    ensures
        found == has_observer(observers@, observer),
{
    let mut i: usize = 0;
    while i < observers.len()
        invariant
            i <= observers@.len(),
            forall|k: int| 0 <= k < i ==> (#[trigger] observers@[k]).observer != observer,
        decreases observers@.len() - i,
    {
        if observers[i].observer == observer {
            return true;
        }
        i = i + 1;
    }
    false
}

impl ArchetypeObservers {
    /// Returns the observers that are run when an entity comes to match.
    pub fn iter_enter(&self) -> (observers: &Vec<RunnableObserver>)
        ensures
            observers@ == self.enter@,
    {
        &self.enter
    }

    /// Returns the observers that are run when an entity ceases to match.
    pub fn iter_leave(&self) -> (observers: &Vec<RunnableObserver>)
        ensures
            observers@ == self.leave@,
    {
        &self.leave
    }
}

/// The observers of queries that are run when an entity moves from one archetype to
/// another.
pub struct ArchetypeEdgeObservers {
    /// The observers of the archetype that the entity leaves. If that archetype has other
    /// ones by now, this value is stale.
    pub source: Arc<ArchetypeObservers>,
    /// The observers of the archetype that the entity enters. If that archetype has other
    /// ones by now, this value is stale.
    pub target: Arc<ArchetypeObservers>,
    /// The observers to run if components that exist keep their values.
    pub enter_keep: Vec<RunnableObserver>,
    /// The observers to run if components that exist get new values.
    pub enter_replace: Vec<RunnableObserver>,
    /// The observers to run before, if components that exist keep their values.
    pub leave_keep: Vec<RunnableObserver>,
    /// The observers to run before, if components that exist get new values.
    pub leave_replace: Vec<RunnableObserver>,
}

impl ArchetypeEdgeObservers {
    /// Returns whether this was made for the given sets of observers.
    pub fn is_valid(
        &self,
        source: &Arc<ArchetypeObservers>,
        target: &Arc<ArchetypeObservers>,
    ) -> (valid: bool)
        ensures
            valid == (self.source.number == source.number && self.target.number == target.number),
    {
        self.source.number == source.number && self.target.number == target.number
    }
}

/// Whether some observers are those of a map whose queries match an archetype with the
/// given components, each of them once.
pub open spec fn lists_matching(
    observers: Seq<RunnableObserver>,
    map: Map<u64, ArchetypeObserverState>,
    components: Seq<ComponentId>,
) -> bool {
    &&& forall|i: int|
        0 <= i < observers.len() ==> {
            let key = (#[trigger] observers[i]).observer.bits() as u64;
            &&& map.contains_key(key)
            &&& map[key].runner == observers[i].runner
            &&& map[key].access.admits(components)
            &&& observers[i].observer.wf()
        }
    &&& forall|i: int, j: int|
        0 <= i < j < observers.len() ==> (#[trigger] observers[i]).observer.bits() != (
        #[trigger] observers[j]).observer.bits()
    &&& forall|key: u64| #[trigger]
        map.contains_key(key) && map[key].access.admits(components) ==> exists|i: int|
            0 <= i < observers.len() && (#[trigger] observers[i]).observer.bits() == key
}

/// Returns the observers of a map whose queries match an archetype with the given
/// components, in no particular order.
fn list_matching(
    map: &HashMap<u64, ArchetypeObserverState>,
    components: &Vec<ComponentId>,
) -> (observers: Vec<RunnableObserver>)
    requires
        crate::observer::names_entities(map@),
    ensures
        lists_matching(observers@, map@, components@),
{
    let mut observers: Vec<RunnableObserver> = Vec::new();
    let iter = map.iter();
    let ghost all = vstd::std_specs::iter::IteratorSpec::remaining(&iter);
    assert(all == vstd::std_specs::iter::IteratorSpec::remaining(&map.iter()));
    assert forall|i: int, j: int| 0 <= i < j < all.len() implies *(#[trigger] all[i]).0 != *(
    #[trigger] all[j]).0 by {
        if all[i].0 == all[j].0 {
            assert(map@[*all[i].0] == *all[i].1);
            assert(map@[*all[j].0] == *all[j].1);
            assert(all[i] == all[j]);
        }
    }
    assert forall|i: int| 0 <= i < all.len() implies map@.contains_key(*(#[trigger] all[i]).0)
        && map@[*all[i].0] == *all[i].1 by {}
    let ghost mut origins = Seq::<int>::empty();
    for (key, state) in entries: iter
        invariant
            crate::observer::names_entities(map@),
            entries.seq() == all,
            forall|i: int|
                0 <= i < all.len() ==> map@.contains_key(*(#[trigger] all[i]).0)
                    && map@[*all[i].0] == *all[i].1,
            forall|i: int, j: int|
                0 <= i < j < all.len() ==> *(#[trigger] all[i]).0 != *(#[trigger] all[j]).0,
            origins.len() == observers@.len(),
            forall|i: int|
                0 <= i < observers@.len() ==> {
                    &&& 0 <= #[trigger] origins[i] < entries.index()
                    &&& observers@[i].observer.bits() == *all[origins[i]].0
                    &&& observers@[i].observer.wf()
                    &&& observers@[i].runner == all[origins[i]].1.runner
                    &&& all[origins[i]].1.access.admits(components@)
                },
            forall|i: int, j: int|
                0 <= i < j < origins.len() ==> #[trigger] origins[i] < #[trigger] origins[j],
            forall|n: int|
                0 <= n < entries.index() && (#[trigger] all[n]).1.access.admits(components@)
                    ==> exists|i: int| 0 <= i < origins.len() && #[trigger] origins[i] == n,
    {
        let ghost n = entries.index();
        let ghost before = origins;
        if state.access.matches_component_set(components) {
            observers.push(
                RunnableObserver { observer: Entity::from_bits(*key), runner: state.runner },
            );
            proof {
                origins = origins.push(n);
                assert(origins[origins.len() - 1] == n);
                assert forall|k: int| 0 <= k < n && (#[trigger] all[k]).1.access.admits(
                    components@,
                ) implies exists|i: int| 0 <= i < origins.len() && #[trigger] origins[i] == k by {
                    let i = choose|i: int| 0 <= i < before.len() && #[trigger] before[i] == k;
                    assert(origins[i] == k);
                }
            }
        }
    }
    proof {
        assert forall|i: int| 0 <= i < observers@.len() implies {
            let key = (#[trigger] observers@[i]).observer.bits() as u64;
            &&& map@.contains_key(key)
            &&& map@[key].runner == observers@[i].runner
            &&& map@[key].access.admits(components@)
            &&& observers@[i].observer.wf()
        } by {
            assert(0 <= origins[i]);
        }
        assert forall|i: int, j: int| 0 <= i < j < observers@.len() implies (
        #[trigger] observers@[i]).observer.bits() != (#[trigger] observers@[j]).observer.bits() by {
            assert(origins[i] < origins[j]);
        }
        assert forall|key: u64| #[trigger]
            map@.contains_key(key) && map@[key].access.admits(components@) implies exists|i: int|
            0 <= i < observers@.len() && (#[trigger] observers@[i]).observer.bits() == key by {
            assert(all.contains((&key, &map@[key])));
            let n = choose|n: int| 0 <= n < all.len() && all[n] == (&key, &map@[key]);
            assert(all[n].1.access.admits(components@));
            let i = choose|i: int| 0 <= i < origins.len() && #[trigger] origins[i] == n;
            assert(observers@[i].observer.bits() == key);
        }
    }
    observers
}

/// The state of an observer in a map.
pub open spec fn state_of(
    states: Map<u64, ArchetypeObserverState>,
    observer: RunnableObserver,
) -> ArchetypeObserverState {
    states[observer.observer.bits() as u64]
}

/// Whether an observer is run when an entity moves between two archetypes, though the
/// components that exist keep their values: it does not match the other archetype, or
/// its query sees a component that is inserted or removed.
pub open spec fn runs_on_keep(
    states: Map<u64, ArchetypeObserverState>,
    other: Seq<RunnableObserver>,
    changed: Seq<ComponentId>,
    observer: RunnableObserver,
) -> bool {
    !has_observer(other, observer.observer) || state_of(states, observer).sees_change(changed)
}

/// Whether an observer is run when an entity moves between two archetypes and the
/// components that exist get new values.
pub open spec fn runs_on_replace(
    states: Map<u64, ArchetypeObserverState>,
    other: Seq<RunnableObserver>,
    changed: Seq<ComponentId>,
    existing: Seq<ComponentId>,
    observer: RunnableObserver,
) -> bool {
    runs_on_keep(states, other, changed, observer) || state_of(states, observer).sees_value(
        existing,
    )
}

/// Whether all observers have a state in a map.
pub open spec fn registered(
    states: Map<u64, ArchetypeObserverState>,
    observers: Seq<RunnableObserver>,
) -> bool {
    forall|i: int|
        0 <= i < observers.len() ==> states.contains_key(
            (#[trigger] observers[i]).observer.bits() as u64,
        )
}

/// Returns the observers that are run when an entity moves between two archetypes, if
/// the components that exist keep their values and if they get new ones.
fn edge_observers(
    states: &HashMap<u64, ArchetypeObserverState>,
    observers: &Vec<RunnableObserver>,
    other: &Vec<RunnableObserver>,
    changed: &Vec<ComponentId>,
    existing: &Vec<ComponentId>,
) -> (edge: (Vec<RunnableObserver>, Vec<RunnableObserver>))
    requires
        registered(states@, observers@),
    ensures
        edge.0@ == observers@.filter(
            |observer: RunnableObserver| runs_on_keep(states@, other@, changed@, observer),
        ),
        edge.1@ == observers@.filter(
            |observer: RunnableObserver|
                runs_on_replace(states@, other@, changed@, existing@, observer),
        ),
{
    let mut keep: Vec<RunnableObserver> = Vec::new();
    let mut replace: Vec<RunnableObserver> = Vec::new();
    let ghost on_keep = |observer: RunnableObserver|
        runs_on_keep(states@, other@, changed@, observer);
    let ghost on_replace = |observer: RunnableObserver|
        runs_on_replace(states@, other@, changed@, existing@, observer);
    let mut i: usize = 0;
    assert(observers@.take(0).filter(on_keep) =~= Seq::<RunnableObserver>::empty()) by {
        reveal(Seq::filter);
    }
    assert(observers@.take(0).filter(on_replace) =~= Seq::<RunnableObserver>::empty()) by {
        reveal(Seq::filter);
    }
    while i < observers.len()
        invariant
            registered(states@, observers@),
            i <= observers@.len(),
            on_keep == |observer: RunnableObserver|
                runs_on_keep(states@, other@, changed@, observer),
            on_replace == |observer: RunnableObserver|
                runs_on_replace(states@, other@, changed@, existing@, observer),
            keep@ == observers@.take(i as int).filter(on_keep),
            replace@ == observers@.take(i as int).filter(on_replace),
        decreases observers@.len() - i,
    {
        let observer = observers[i];
        proof {
            reveal(Seq::filter);
            assert(observers@.take(i + 1).drop_last() =~= observers@.take(i as int));
            assert(observers@.take(i + 1).last() == observer);
        }
        match states.get(&observer.observer.to_bits()) {
            Some(state) => {
                // Run the observer if it does not match the other archetype, or if the
                // values that it queries will have changed.
                if !contains_observer(other, observer.observer) || state.matches_changed(
                    changed,
                ) {
                    keep.push(observer);
                    replace.push(observer);
                } else if state.matches_existing(existing) {
                    replace.push(observer);
                }
            },
            None => {
                assert(states@.contains_key(observers@[i as int].observer.bits() as u64));
            },
        }
        i = i + 1;
    }
    assert(observers@.take(i as int) =~= observers@);
    (keep, replace)
}

impl Observers {
    /// Returns the flag that archetypes have if a component has observers of an event, or
    /// nothing if archetypes have none for that event.
    pub fn is_archetype_cached(event_key: usize) -> (flags: Option<ArchetypeFlags>)
        ensures
            flags == (if event_key == ADD {
                Some(ArchetypeFlags { on_add_observer: true, ..ArchetypeFlags::empty() })
            } else if event_key == INSERT {
                Some(ArchetypeFlags { on_insert_observer: true, ..ArchetypeFlags::empty() })
            } else if event_key == REPLACE {
                Some(ArchetypeFlags { on_replace_observer: true, ..ArchetypeFlags::empty() })
            } else if event_key == REMOVE {
                Some(ArchetypeFlags { on_remove_observer: true, ..ArchetypeFlags::empty() })
            } else if event_key == DESPAWN {
                Some(ArchetypeFlags { on_despawn_observer: true, ..ArchetypeFlags::empty() })
            } else {
                None
            }),
    {
        if event_key == ADD {
            Some(ArchetypeFlags { on_add_observer: true, ..ArchetypeFlags::empty() })
        } else if event_key == INSERT {
            Some(ArchetypeFlags { on_insert_observer: true, ..ArchetypeFlags::empty() })
        } else if event_key == REPLACE {
            Some(ArchetypeFlags { on_replace_observer: true, ..ArchetypeFlags::empty() })
        } else if event_key == REMOVE {
            Some(ArchetypeFlags { on_remove_observer: true, ..ArchetypeFlags::empty() })
        } else if event_key == DESPAWN {
            Some(ArchetypeFlags { on_despawn_observer: true, ..ArchetypeFlags::empty() })
        } else {
            None
        }
    }

    /// Adds the flags for the observers of a component.
    pub fn update_archetype_flags(&self, component_id: ComponentId, flags: &mut ArchetypeFlags)
        ensures
            *final(flags) == (ArchetypeFlags {
                on_add_observer: old(flags).on_add_observer
                    || self.add.component_observers@.contains_key(component_id.0),
                on_insert_observer: old(flags).on_insert_observer
                    || self.insert.component_observers@.contains_key(component_id.0),
                on_replace_observer: old(flags).on_replace_observer
                    || self.replace.component_observers@.contains_key(component_id.0),
                on_remove_observer: old(flags).on_remove_observer
                    || self.remove.component_observers@.contains_key(component_id.0),
                on_despawn_observer: old(flags).on_despawn_observer
                    || self.despawn.component_observers@.contains_key(component_id.0),
            }),
    {
        if self.add.component_observers.contains_key(&component_id.0) {
            flags.on_add_observer = true;
        }
        if self.insert.component_observers.contains_key(&component_id.0) {
            flags.on_insert_observer = true;
        }
        if self.replace.component_observers.contains_key(&component_id.0) {
            flags.on_replace_observer = true;
        }
        if self.remove.component_observers.contains_key(&component_id.0) {
            flags.on_remove_observer = true;
        }
        if self.despawn.component_observers.contains_key(&component_id.0) {
            flags.on_despawn_observer = true;
        }
    }

    /// Returns a new set of the observers of queries that match an archetype with the
    /// given components.
    pub fn get_archetype_observers(&mut self, components: &Vec<ComponentId>) -> (observers: Arc<
        ArchetypeObservers,
    >)
        requires
            old(self).wf(),
            old(self).archetype_sets < u64::MAX,
        ensures
            lists_matching(observers.enter@, old(self).enter@, components@),
            lists_matching(observers.leave@, old(self).leave@, components@),
            observers.number == old(self).archetype_sets,
            *final(self) == (Observers {
                archetype_sets: (old(self).archetype_sets + 1) as u64,
                ..*old(self)
            }),
    {
        let enter = list_matching(&self.enter, components);
        let leave = list_matching(&self.leave, components);
        let number: u64 = self.archetype_sets;
        self.archetype_sets = number + 1;
        Arc::new(ArchetypeObservers { number, enter, leave })
    }

    /// Returns the observers of queries that are run when an entity moves from one
    /// archetype to another. Components that are inserted or removed are changed, others
    /// that are given are existing.
    pub fn get_edge_observers(
        &self,
        archetypes: &Archetypes,
        source: ArchetypeId,
        target: ArchetypeId,
        changed: &Vec<ComponentId>,
        existing: &Vec<ComponentId>,
    ) -> (edge: Arc<ArchetypeEdgeObservers>)
        requires
            source.0 < archetypes.archetypes@.len(),
            target.0 < archetypes.archetypes@.len(),
            registered(
                self.enter@,
                archetypes.archetypes@[target.0 as int].observers.enter@,
            ),
            registered(
                self.leave@,
                archetypes.archetypes@[source.0 as int].observers.leave@,
            ),
        ensures
            edge.source == archetypes.archetypes@[source.0 as int].observers,
            edge.target == archetypes.archetypes@[target.0 as int].observers,
            edge.enter_keep@ == edge.target.enter@.filter(
                |observer: RunnableObserver|
                    runs_on_keep(self.enter@, edge.source.enter@, changed@, observer),
            ),
            edge.enter_replace@ == edge.target.enter@.filter(
                |observer: RunnableObserver|
                    runs_on_replace(
                        self.enter@,
                        edge.source.enter@,
                        changed@,
                        existing@,
                        observer,
                    ),
            ),
            edge.leave_keep@ == edge.source.leave@.filter(
                |observer: RunnableObserver|
                    runs_on_keep(self.leave@, edge.target.leave@, changed@, observer),
            ),
            edge.leave_replace@ == edge.source.leave@.filter(
                |observer: RunnableObserver|
                    runs_on_replace(
                        self.leave@,
                        edge.target.leave@,
                        changed@,
                        existing@,
                        observer,
                    ),
            ),
    {
        let source = archetypes.archetypes[source.index()].observers.clone();
        let target = archetypes.archetypes[target.index()].observers.clone();
        let (enter_keep, enter_replace) = edge_observers(
            &self.enter,
            target.iter_enter(),
            source.iter_enter(),
            changed,
            existing,
        );
        let (leave_keep, leave_replace) = edge_observers(
            &self.leave,
            source.iter_leave(),
            target.iter_leave(),
            changed,
            existing,
        );
        Arc::new(
            ArchetypeEdgeObservers {
                source,
                target,
                enter_keep,
                enter_replace,
                leave_keep,
                leave_replace,
            },
        )
    }
}

} // verus!
