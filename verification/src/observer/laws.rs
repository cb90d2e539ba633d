//! What holds of observers as a whole.

use vstd::prelude::*;

use crate::component::ComponentId;
use crate::entity::Entity;
use crate::observer::archetype_observers::ArchetypeObserverState;
use crate::lifecycle::{ADD, DESPAWN, INSERT, REMOVE, REPLACE};
use crate::observer::{
    CachedComponentObservers, CachedObservers, Event, ObserverCall, ObserverRunner, Observers,
    RunnableObserver,
};

verus! {

/// Whether one of some calls runs the observer with the given bits by the given runner.
pub open spec fn calls_observer(
    calls: Seq<ObserverCall>,
    key: u64,
    runner: ObserverRunner,
) -> bool {
    exists|i: int|
        0 <= i < calls.len() && (#[trigger] calls[i]).trigger.observer.bits() == key
            && calls[i].runner == runner
}

/// Every observer of every map is called.
pub proof fn every_observer_is_called(
    calls: Seq<ObserverCall>,
    groups: Seq<Map<u64, ObserverRunner>>,
    g: int,
    key: u64,
)
    requires
        crate::observer::calls_groups(calls, groups),
        0 <= g < groups.len(),
        groups[g].contains_key(key),
    ensures
        calls_observer(calls, key, groups[g][key]),
    decreases groups.len(),
{
    let n = groups.last().dom().len() as int;
    let split = calls.len() - n;
    if g == groups.len() - 1 {
        let observers = crate::observer::observers_of(calls.skip(split));
        let i = choose|i: int|
            0 <= i < observers.len() && (#[trigger] observers[i]).observer.bits() == key;
        assert(observers[i].runner == groups[g][observers[i].observer.bits() as u64]);
        assert(calls[split + i].trigger.observer == observers[i].observer);
        assert(calls[split + i].runner == observers[i].runner);
    } else {
        every_observer_is_called(calls.take(split), groups.drop_last(), g, key);
        let i = choose|i: int|
            0 <= i < calls.take(split).len() && (#[trigger] calls.take(
                split,
            )[i]).trigger.observer.bits() == key && calls.take(split)[i].runner
                == groups[g][key];
        assert(calls[i] == calls.take(split)[i]);
    }
}

/// Whether the observer of a call, and its runner, are in one of some maps.
pub open spec fn is_listening(groups: Seq<Map<u64, ObserverRunner>>, call: ObserverCall) -> bool {
    exists|g: int|
        0 <= g < groups.len() && (#[trigger] groups[g]).contains_key(
            call.trigger.observer.bits() as u64,
        ) && groups[g][call.trigger.observer.bits() as u64] == call.runner
}

/// No observer is called that is in none of the maps.
pub proof fn only_observers_are_called(
    calls: Seq<ObserverCall>,
    groups: Seq<Map<u64, ObserverRunner>>,
    i: int,
)
    requires
        crate::observer::calls_groups(calls, groups),
        0 <= i < calls.len(),
    ensures
        is_listening(groups, calls[i]),
    decreases groups.len(),
{
    let n = groups.last().dom().len() as int;
    let split = calls.len() - n;
    if i >= split {
        let observers = crate::observer::observers_of(calls.skip(split));
        assert(observers[i - split].observer == calls[i].trigger.observer);
        assert(observers[i - split].runner == calls[i].runner);
        assert(groups[groups.len() - 1].contains_key(calls[i].trigger.observer.bits() as u64));
    } else {
        only_observers_are_called(calls.take(split), groups.drop_last(), i);
        let g = choose|g: int|
            0 <= g < groups.drop_last().len() && (#[trigger] groups.drop_last()[g]).contains_key(
                calls[i].trigger.observer.bits() as u64,
            ) && groups.drop_last()[g][calls[i].trigger.observer.bits() as u64]
                == calls[i].runner;
        assert(groups[g] == groups.drop_last()[g]);
    }
}

/// An observer of an event that is registered regardless of what the event targets is
/// called for every such event, whatever it targets.
pub proof fn global_observers_are_called(
    observers: CachedObservers,
    target: Option<Entity>,
    ids: Seq<ComponentId>,
    calls: Seq<ObserverCall>,
    key: u64,
)
    requires
        crate::observer::calls_groups(
            calls,
            crate::observer::triggered_groups(observers, target, ids),
        ),
        observers.global_observers@.contains_key(key),
    ensures
        calls_observer(calls, key, observers.global_observers@[key]),
{
    every_observer_is_called(
        calls,
        crate::observer::triggered_groups(observers, target, ids),
        0,
        key,
    );
}

/// An observer that is run when the components that exist keep their values is run when
/// they get new values, too.
pub proof fn replacing_runs_what_keeping_runs(
    states: Map<u64, ArchetypeObserverState>,
    observers: Seq<RunnableObserver>,
    other: Seq<RunnableObserver>,
    changed: Seq<ComponentId>,
    existing: Seq<ComponentId>,
    observer: RunnableObserver,
)
    requires
        observers.filter(
            |observer: RunnableObserver|
                crate::observer::archetype_observers::runs_on_keep(
                    states,
                    other,
                    changed,
                    observer,
                ),
        ).contains(observer),
    ensures
        observers.filter(
            |observer: RunnableObserver|
                crate::observer::archetype_observers::runs_on_replace(
                    states,
                    other,
                    changed,
                    existing,
                    observer,
                ),
        ).contains(observer),
    decreases observers.len(),
{
    reveal(Seq::filter);
    let on_keep = |observer: RunnableObserver|
        crate::observer::archetype_observers::runs_on_keep(states, other, changed, observer);
    let on_replace = |observer: RunnableObserver|
        crate::observer::archetype_observers::runs_on_replace(
            states,
            other,
            changed,
            existing,
            observer,
        );
    let rest = observers.drop_last();
    let kept = observers.filter(on_keep);
    let replaced = observers.filter(on_replace);
    let i = choose|i: int| 0 <= i < kept.len() && kept[i] == observer;
    if on_keep(observers.last()) && i == kept.len() - 1 {
        assert(replaced[replaced.len() - 1] == observer);
    } else {
        assert(rest.filter(on_keep)[i] == observer);
        replacing_runs_what_keeping_runs(states, rest, other, changed, existing, observer);
        let again = rest.filter(on_replace);
        let j = choose|j: int| 0 <= j < again.len() && again[j] == observer;
        assert(replaced[j] == observer);
    }
}

/// The maps of a component that is targeted are among those of all components.
proof fn component_maps_are_included(
    observers: Map<usize, CachedComponentObservers>,
    target: Option<Entity>,
    ids: Seq<ComponentId>,
    c: int,
)
    requires
        0 <= c < ids.len(),
        observers.contains_key(ids[c].0),
    ensures
        crate::observer::component_groups(observers, target, ids).contains(
            observers[ids[c].0].global_observers@,
        ),
        target matches Some(entity) && observers[ids[c].0].entity_component_observers@.contains_key(
            entity.bits() as u64,
        ) ==> crate::observer::component_groups(observers, target, ids).contains(
            observers[ids[c].0].entity_component_observers@[target->0.bits() as u64]@,
        ),
    decreases ids.len(),
{
    let all = crate::observer::component_groups(observers, target, ids);
    let rest = crate::observer::component_groups(observers, target, ids.drop_last());
    let own = observers[ids[c].0];
    if c == ids.len() - 1 {
        assert(all[rest.len() as int] == own.global_observers@);
        if target is Some && own.entity_component_observers@.contains_key(
            target->0.bits() as u64,
        ) {
            assert(all[rest.len() as int + 1] == own.entity_component_observers@[
            target->0.bits() as u64]@);
        }
    } else {
        component_maps_are_included(observers, target, ids.drop_last(), c);
        assert forall|map: Map<u64, ObserverRunner>| #[trigger]
            rest.contains(map) implies all.contains(map) by {
            let g = choose|g: int| 0 <= g < rest.len() && rest[g] == map;
            assert(all[g] == map);
        }
    }
}

/// All observers hear of an event that are registered for it: those regardless of what the event
/// targets, those of the entity that it targets, and, for every component that it targets, those
/// of the component and those of the component on the entity.
pub proof fn all_who_listen_are_called(
    observers: CachedObservers,
    target: Option<Entity>,
    ids: Seq<ComponentId>,
    calls: Seq<ObserverCall>,
    c: int,
    key: u64,
)
    requires
        crate::observer::calls_groups(
            calls,
            crate::observer::triggered_groups(observers, target, ids),
        ),
    ensures
        observers.global_observers@.contains_key(key) ==> exists|i: int|
            0 <= i < calls.len() && (#[trigger] calls[i]).trigger.observer.bits() == key
                && calls[i].runner == observers.global_observers@[key],
        target matches Some(entity) && observers.entity_observers@.contains_key(
            entity.bits() as u64,
        ) && observers.entity_observers@[target->0.bits() as u64]@.contains_key(key)
            ==> exists|i: int|
            0 <= i < calls.len() && (#[trigger] calls[i]).trigger.observer.bits() == key
                && calls[i].runner == observers.entity_observers@[target->0.bits() as u64]@[key],
        0 <= c < ids.len() && observers.component_observers@.contains_key(ids[c].0)
            && observers.component_observers@[ids[c].0].global_observers@.contains_key(key)
            ==> exists|i: int|
            0 <= i < calls.len() && (#[trigger] calls[i]).trigger.observer.bits() == key
                && calls[i].runner
                == observers.component_observers@[ids[c].0].global_observers@[key],
        0 <= c < ids.len() && observers.component_observers@.contains_key(ids[c].0)
            && target is Some
            && observers.component_observers@[ids[c].0].entity_component_observers@.contains_key(
            target->0.bits() as u64,
        ) && observers.component_observers@[ids[c].0].entity_component_observers@[
        target->0.bits() as u64]@.contains_key(key) ==> exists|i: int|
            0 <= i < calls.len() && (#[trigger] calls[i]).trigger.observer.bits() == key
                && calls[i].runner
                == observers.component_observers@[ids[c].0].entity_component_observers@[
            target->0.bits() as u64]@[key],
{
    let groups = crate::observer::triggered_groups(observers, target, ids);
    let own = crate::observer::target_group(observers.entity_observers@, target);
    let parts = crate::observer::component_groups(observers.component_observers@, target, ids);
    assert(groups[0] == observers.global_observers@);
    if observers.global_observers@.contains_key(key) {
        every_observer_is_called(calls, groups, 0, key);
    }
    if target is Some && observers.entity_observers@.contains_key(target->0.bits() as u64) {
        let map = observers.entity_observers@[target->0.bits() as u64]@;
        assert(groups[1] == map);
        if map.contains_key(key) {
            every_observer_is_called(calls, groups, 1, key);
        }
    }
    if 0 <= c < ids.len() && observers.component_observers@.contains_key(ids[c].0) {
        let component = observers.component_observers@[ids[c].0];
        component_maps_are_included(observers.component_observers@, target, ids, c);
        let map = component.global_observers@;
        let g = choose|g: int| 0 <= g < parts.len() && parts[g] == map;
        assert(groups[1 + own.len() + g] == map);
        if map.contains_key(key) {
            every_observer_is_called(calls, groups, 1 + own.len() + g, key);
        }
        if target is Some && component.entity_component_observers@.contains_key(
            target->0.bits() as u64,
        ) {
            let map = component.entity_component_observers@[target->0.bits() as u64]@;
            let g = choose|g: int| 0 <= g < parts.len() && parts[g] == map;
            assert(groups[1 + own.len() + g] == map);
            if map.contains_key(key) {
                every_observer_is_called(calls, groups, 1 + own.len() + g, key);
            }
        }
    }
}

/// The maps of all components are maps of components that are targeted.
proof fn component_maps_are_of_targets(
    observers: Map<usize, CachedComponentObservers>,
    target: Option<Entity>,
    ids: Seq<ComponentId>,
    g: int,
) -> (c: int)
    requires
        0 <= g < crate::observer::component_groups(observers, target, ids).len(),
    ensures
        0 <= c < ids.len(),
        observers.contains_key(ids[c].0),
        crate::observer::component_groups(observers, target, ids)[g]
            == observers[ids[c].0].global_observers@ || (target is Some
            && observers[ids[c].0].entity_component_observers@.contains_key(
            target->0.bits() as u64,
        ) && crate::observer::component_groups(observers, target, ids)[g]
            == observers[ids[c].0].entity_component_observers@[target->0.bits() as u64]@),
    decreases ids.len(),
{
    let rest = crate::observer::component_groups(observers, target, ids.drop_last());
    if g < rest.len() {
        component_maps_are_of_targets(observers, target, ids.drop_last(), g)
    } else {
        ids.len() - 1
    }
}

/// Nobody else hears of an event: every call is for an observer that is registered for the event
/// regardless of what it targets, on the entity that it targets, on a component that it targets,
/// or on such a component of the entity.
pub proof fn only_who_listens_is_called(
    observers: CachedObservers,
    target: Option<Entity>,
    ids: Seq<ComponentId>,
    calls: Seq<ObserverCall>,
    i: int,
)
    requires
        crate::observer::calls_groups(
            calls,
            crate::observer::triggered_groups(observers, target, ids),
        ),
        0 <= i < calls.len(),
    ensures
        ({
            let key = calls[i].trigger.observer.bits() as u64;
            let runner = calls[i].runner;
            let bits = target->0.bits() as u64;
            ||| observers.global_observers@.contains_key(key)
                && observers.global_observers@[key] == runner
            ||| target is Some && observers.entity_observers@.contains_key(bits)
                && observers.entity_observers@[bits]@.contains_key(key)
                && observers.entity_observers@[bits]@[key] == runner
            ||| exists|c: int|
                0 <= c < ids.len() && observers.component_observers@.contains_key(
                    (#[trigger] ids[c]).0,
                ) && {
                    let component = observers.component_observers@[ids[c].0];
                    ||| component.global_observers@.contains_key(key)
                        && component.global_observers@[key] == runner
                    ||| target is Some && component.entity_component_observers@.contains_key(bits)
                        && component.entity_component_observers@[bits]@.contains_key(key)
                        && component.entity_component_observers@[bits]@[key] == runner
                }
        }),
{
    let groups = crate::observer::triggered_groups(observers, target, ids);
    let own = crate::observer::target_group(observers.entity_observers@, target);
    let parts = crate::observer::component_groups(observers.component_observers@, target, ids);
    only_observers_are_called(calls, groups, i);
    let key = calls[i].trigger.observer.bits() as u64;
    let g = choose|g: int|
        0 <= g < groups.len() && (#[trigger] groups[g]).contains_key(key) && groups[g][key]
            == calls[i].runner;
    if g == 0 {
        assert(groups[0] == observers.global_observers@);
    } else if g < 1 + own.len() {
        assert(groups[g] == own[g - 1]);
    } else {
        assert(groups[g] == parts[g - 1 - own.len()]);
        let c = component_maps_are_of_targets(
            observers.component_observers@,
            target,
            ids,
            g - 1 - own.len(),
        );
        assert(observers.component_observers@.contains_key(ids[c].0));
    }
}

/// The calls for some maps and for others after them are those for all of them.
proof fn calls_split(
    calls: Seq<ObserverCall>,
    first: Seq<Map<u64, ObserverRunner>>,
    second: Seq<Map<u64, ObserverRunner>>,
) -> (split: int)
    requires
        crate::observer::calls_groups(calls, first + second),
    ensures
        0 <= split <= calls.len(),
        crate::observer::calls_groups(calls.take(split), first),
        crate::observer::calls_groups(calls.skip(split), second),
    decreases second.len(),
{
    let all = first + second;
    if second.len() == 0 {
        assert(all =~= first);
        assert(calls.take(calls.len() as int) =~= calls);
        calls.len() as int
    } else {
        assert(all.drop_last() =~= first + second.drop_last());
        assert(all.last() == second.last());
        let n = all.last().dom().len() as int;
        let rest = calls.take(calls.len() - n);
        let split = calls_split(rest, first, second.drop_last());
        assert(rest.take(split) =~= calls.take(split));
        let late = calls.skip(split);
        assert(late.take(late.len() - n) =~= rest.skip(split));
        assert(late.skip(late.len() - n) =~= calls.skip(calls.len() - n));
        split
    }
}

/// The number of calls for some maps does not depend on the calls.
proof fn as_many_calls(
    one: Seq<ObserverCall>,
    other: Seq<ObserverCall>,
    groups: Seq<Map<u64, ObserverRunner>>,
)
    requires
        crate::observer::calls_groups(one, groups),
        crate::observer::calls_groups(other, groups),
    ensures
        one.len() == other.len(),
    decreases groups.len(),
{
    if groups.len() > 0 {
        let n = groups.last().dom().len() as int;
        as_many_calls(one.take(one.len() - n), other.take(other.len() - n), groups.drop_last());
    }
}

/// An event that targets no component calls each observer that is registered regardless of what
/// it targets once, and each observer of the entity that it targets once.
pub proof fn calls_without_components(
    observers: CachedObservers,
    target: Option<Entity>,
    calls: Seq<ObserverCall>,
)
    requires
        crate::observer::calls_groups(
            calls,
            crate::observer::triggered_groups(observers, target, Seq::empty()),
        ),
    ensures
        calls.len() == observers.global_observers@.dom().len() + (if target is Some
            && observers.entity_observers@.contains_key(target->0.bits() as u64) {
            observers.entity_observers@[target->0.bits() as u64]@.dom().len() as int
        } else {
            0
        }),
{
    let groups = crate::observer::triggered_groups(observers, target, Seq::empty());
    let global = seq![observers.global_observers@];
    let own = crate::observer::target_group(observers.entity_observers@, target);
    assert(groups =~= global + own);
    let split = calls_split(calls, global, own);
    one_map(calls.take(split), observers.global_observers@);
    if own.len() > 0 {
        assert(own =~= seq![own[0]]);
        one_map(calls.skip(split), own[0]);
    }
}

proof fn one_map(calls: Seq<ObserverCall>, map: Map<u64, ObserverRunner>)
    requires
        crate::observer::calls_groups(calls, seq![map]),
    ensures
        calls.len() == map.dom().len(),
{
    assert(seq![map].last() == map);
    assert(seq![map].drop_last() =~= Seq::<Map<u64, ObserverRunner>>::empty());
    assert(crate::observer::calls_groups(
        calls.take(calls.len() - map.dom().len()),
        seq![map].drop_last(),
    ));
}

/// For each component that an event targets besides others, the observers of that component, and
/// those of the component on the entity, are called after the others, each of them once.
pub proof fn each_component_adds_its_calls(
    observers: CachedObservers,
    target: Option<Entity>,
    ids: Seq<ComponentId>,
    id: ComponentId,
    calls: Seq<ObserverCall>,
    more: Seq<ObserverCall>,
)
    requires
        crate::observer::calls_groups(
            calls,
            crate::observer::triggered_groups(observers, target, ids),
        ),
        crate::observer::calls_groups(
            more,
            crate::observer::triggered_groups(observers, target, ids.push(id)),
        ),
    ensures
        more.len() == calls.len() + (if observers.component_observers@.contains_key(id.0) {
            let component = observers.component_observers@[id.0];
            component.global_observers@.dom().len() + (if target is Some
                && component.entity_component_observers@.contains_key(target->0.bits() as u64) {
                component.entity_component_observers@[target->0.bits() as u64]@.dom().len() as int
            } else {
                0
            })
        } else {
            0
        }),
        crate::observer::calls_groups(
            more.take(calls.len() as int),
            crate::observer::triggered_groups(observers, target, ids),
        ),
{
    let groups = crate::observer::triggered_groups(observers, target, ids);
    let added = crate::observer::component_group(observers.component_observers@, target, id);
    assert(ids.push(id).drop_last() =~= ids);
    assert(crate::observer::triggered_groups(observers, target, ids.push(id)) =~= groups + added);
    let split = calls_split(more, groups, added);
    as_many_calls(calls, more.take(split), groups);
    let late = more.skip(split);
    if observers.component_observers@.contains_key(id.0) {
        let component = observers.component_observers@[id.0];
        let own = crate::observer::target_group(component.entity_component_observers@, target);
        let at = calls_split(late, seq![component.global_observers@], own);
        one_map(late.take(at), component.global_observers@);
        if own.len() > 0 {
            assert(own =~= seq![own[0]]);
            one_map(late.skip(at), own[0]);
        }
    }
}

/// Within the calls for one map no observer is called twice.
pub proof fn observers_of_a_map_are_called_once(
    calls: Seq<ObserverCall>,
    map: Map<u64, ObserverRunner>,
    i: int,
    j: int,
)
    requires
        crate::observer::calls_groups(calls, seq![map]),
        0 <= i < j < calls.len(),
    ensures
        calls[i].trigger.observer.bits() != calls[j].trigger.observer.bits(),
{
    one_map(calls, map);
    assert(seq![map].last() == map);
    let n = map.dom().len() as int;
    assert(calls.skip(calls.len() - n) =~= calls);
    let observers = crate::observer::observers_of(calls);
    assert(crate::observer::lists(observers, map));
    assert(observers[i].observer.bits() != observers[j].observer.bits());
}

/// All calls tell of the event that triggered them: which event it is, what it targets, and where
/// it was triggered.
pub proof fn calls_tell_of_their_event(
    event: Event,
    calls: Seq<ObserverCall>,
    ids: Seq<ComponentId>,
    i: int,
)
    requires
        event.tells_all(calls, ids),
        0 <= i < calls.len(),
    ensures
        calls[i].trigger.event_key == event.event_key,
        calls[i].trigger.components@ == ids,
        calls[i].trigger.current_target == event.current_target,
        calls[i].trigger.original_target == event.original_target,
        calls[i].trigger.caller == event.caller,
{
}

/// Each of the events in the life of a component has observers of its own, and all other events
/// have those that are stored under their key.
pub proof fn events_have_their_own_observers(observers: Observers, event_key: usize)
    ensures
        observers.observers_for(ADD) == Some(observers.add),
        observers.observers_for(INSERT) == Some(observers.insert),
        observers.observers_for(REPLACE) == Some(observers.replace),
        observers.observers_for(REMOVE) == Some(observers.remove),
        observers.observers_for(DESPAWN) == Some(observers.despawn),
        event_key != ADD && event_key != INSERT && event_key != REPLACE && event_key != REMOVE
            && event_key != DESPAWN ==> {
            &&& observers.cache@.contains_key(event_key) ==> observers.observers_for(event_key)
                == Some(observers.cache@[event_key])
            &&& !observers.cache@.contains_key(event_key) ==> observers.observers_for(
                event_key,
            ) is None
        },
{
}

/// An observer of a query is run when an entity moves between two archetypes, though the
/// components that exist keep their values, exactly if the query does not match the other
/// archetype, or it reads or looks at a component that is inserted or removed. If the components
/// that exist get new values, it is also run if the query reads one of them.
pub proof fn edges_run_observers_that_notice(
    states: Map<u64, ArchetypeObserverState>,
    observers: Seq<RunnableObserver>,
    other: Seq<RunnableObserver>,
    changed: Seq<ComponentId>,
    existing: Seq<ComponentId>,
    observer: RunnableObserver,
)
    ensures
        ({
            let access = states[observer.observer.bits() as u64].access.access;
            let elsewhere = exists|i: int|
                0 <= i < other.len() && (#[trigger] other[i]).observer == observer.observer;
            let notices = exists|i: int|
                0 <= i < changed.len() && (access.reads(#[trigger] changed[i])
                    || access.archetypal@.contains(changed[i]));
            let reads = exists|i: int| 0 <= i < existing.len() && access.reads(
                #[trigger] existing[i],
            );
            &&& observers.filter(
                |observer: RunnableObserver|
                    crate::observer::archetype_observers::runs_on_keep(
                        states,
                        other,
                        changed,
                        observer,
                    ),
            ).contains(observer) <==> observers.contains(observer) && (!elsewhere || notices)
            &&& observers.filter(
                |observer: RunnableObserver|
                    crate::observer::archetype_observers::runs_on_replace(
                        states,
                        other,
                        changed,
                        existing,
                        observer,
                    ),
            ).contains(observer) <==> observers.contains(observer) && (!elsewhere || notices
                || reads)
        }),
{
    let on_keep = |observer: RunnableObserver|
        crate::observer::archetype_observers::runs_on_keep(states, other, changed, observer);
    let on_replace = |observer: RunnableObserver|
        crate::observer::archetype_observers::runs_on_replace(
            states,
            other,
            changed,
            existing,
            observer,
        );
    filter_contains(observers, on_keep, observer);
    filter_contains(observers, on_replace, observer);
}

proof fn filter_contains<A>(items: Seq<A>, kept: spec_fn(A) -> bool, item: A)
    ensures
        items.filter(kept).contains(item) <==> items.contains(item) && kept(item),
    decreases items.len(),
{
    reveal(Seq::filter);
    let filtered = items.filter(kept);
    if items.len() > 0 {
        let rest = items.drop_last();
        filter_contains(rest, kept, item);
        if items.contains(item) {
            let i = choose|i: int| 0 <= i < items.len() && items[i] == item;
            if i < rest.len() {
                assert(rest[i] == item);
            }
        }
        if rest.contains(item) {
            let i = choose|i: int| 0 <= i < rest.len() && rest[i] == item;
            assert(items[i] == item);
        }
        let before = rest.filter(kept);
        if before.contains(item) {
            let i = choose|i: int| 0 <= i < before.len() && before[i] == item;
            assert(filtered[i] == item);
        }
        if kept(items.last()) {
            assert(filtered == before.push(items.last()));
            assert(filtered[filtered.len() - 1] == items.last());
            assert(items[items.len() - 1] == items.last());
            if filtered.contains(item) {
                let i = choose|i: int| 0 <= i < filtered.len() && filtered[i] == item;
                if i < before.len() {
                    assert(before[i] == item);
                }
            }
        }
    }
}

/// The observers of an archetype are those whose queries match its components, each of them once,
/// with its own runner.
pub proof fn archetype_has_the_observers_that_match(
    observers: Seq<RunnableObserver>,
    map: Map<u64, ArchetypeObserverState>,
    components: Seq<ComponentId>,
    key: u64,
    i: int,
    j: int,
)
    requires
        crate::observer::archetype_observers::lists_matching(observers, map, components),
    ensures
        map.contains_key(key) && map[key].access.admits(components) <==> exists|n: int|
            0 <= n < observers.len() && (#[trigger] observers[n]).observer.bits() == key,
        0 <= i < observers.len() ==> map[observers[i].observer.bits() as u64].runner
            == observers[i].runner,
        0 <= i < j < observers.len() ==> observers[i].observer.bits()
            != observers[j].observer.bits(),
{
    if exists|n: int| 0 <= n < observers.len() && (#[trigger] observers[n]).observer.bits() == key {
        let n = choose|n: int|
            0 <= n < observers.len() && (#[trigger] observers[n]).observer.bits() == key;
        assert(observers[n].observer.bits() as u64 == key);
    }
    if 0 <= i < observers.len() {
        assert(map.contains_key(observers[i].observer.bits() as u64));
    }
}

/// Observers that are registered regardless of what an event targets are called first, and then
/// those of the entity that it targets.
pub proof fn calls_come_in_order(
    observers: CachedObservers,
    target: Option<Entity>,
    ids: Seq<ComponentId>,
    calls: Seq<ObserverCall>,
    i: int,
)
    requires
        crate::observer::calls_groups(
            calls,
            crate::observer::triggered_groups(observers, target, ids),
        ),
    ensures
        ({
            let key = calls[i].trigger.observer.bits() as u64;
            let runner = calls[i].runner;
            let bits = target->0.bits() as u64;
            let global = observers.global_observers@.dom().len();
            &&& global <= calls.len()
            &&& 0 <= i < global ==> observers.global_observers@.contains_key(key)
                && observers.global_observers@[key] == runner
            &&& target is Some && observers.entity_observers@.contains_key(bits) ==> {
                let own = observers.entity_observers@[bits]@;
                &&& global + own.dom().len() <= calls.len()
                &&& global <= i < global + own.dom().len() ==> own.contains_key(key) && own[key]
                    == runner
            }
        }),
{
    let groups = crate::observer::triggered_groups(observers, target, ids);
    let global = seq![observers.global_observers@];
    let own = crate::observer::target_group(observers.entity_observers@, target);
    let parts = crate::observer::component_groups(observers.component_observers@, target, ids);
    assert(groups =~= global + (own + parts));
    let split = calls_split(calls, global, own + parts);
    let first = calls.take(split);
    let late = calls.skip(split);
    one_map(first, observers.global_observers@);
    if 0 <= i < split {
        only_observers_are_called(first, global, i);
        assert(first[i] == calls[i]);
    }
    let at = calls_split(late, own, parts);
    if target is Some && observers.entity_observers@.contains_key(target->0.bits() as u64) {
        assert(own =~= seq![own[0]]);
        one_map(late.take(at), own[0]);
        if split <= i < split + at {
            only_observers_are_called(late.take(at), own, i - split);
            assert(late.take(at)[i - split] == calls[i]);
        }
    }
}

/// The last calls are for the last component that an event targets: first each observer of the
/// component once, and then each observer of the component on the entity once.
pub proof fn component_calls_come_in_order(
    observers: CachedObservers,
    target: Option<Entity>,
    ids: Seq<ComponentId>,
    id: ComponentId,
    calls: Seq<ObserverCall>,
    i: int,
    j: int,
)
    requires
        crate::observer::calls_groups(
            calls,
            crate::observer::triggered_groups(observers, target, ids.push(id)),
        ),
        observers.component_observers@.contains_key(id.0),
        0 <= i < calls.len(),
    ensures
        ({
            let component = observers.component_observers@[id.0];
            let bits = target->0.bits() as u64;
            let own = if target is Some && component.entity_component_observers@.contains_key(
                bits,
            ) {
                component.entity_component_observers@[bits]@
            } else {
                Map::<u64, ObserverRunner>::empty()
            };
            let key = calls[i].trigger.observer.bits() as u64;
            let middle = calls.len() - own.dom().len();
            let start = middle - component.global_observers@.dom().len();
            &&& 0 <= start
            &&& start <= i < middle ==> component.global_observers@.contains_key(key)
                && component.global_observers@[key] == calls[i].runner
            &&& middle <= i ==> own.contains_key(key) && own[key] == calls[i].runner
            &&& start <= i < j < middle || middle <= i < j < calls.len()
                ==> calls[i].trigger.observer.bits() != calls[j].trigger.observer.bits()
        }),
{
    let component = observers.component_observers@[id.0];
    let groups = crate::observer::triggered_groups(observers, target, ids);
    let added = crate::observer::component_group(observers.component_observers@, target, id);
    assert(ids.push(id).drop_last() =~= ids);
    assert(crate::observer::triggered_groups(observers, target, ids.push(id)) =~= groups + added);
    let split = calls_split(calls, groups, added);
    let late = calls.skip(split);
    let own = crate::observer::target_group(component.entity_component_observers@, target);
    let at = calls_split(late, seq![component.global_observers@], own);
    let first = late.take(at);
    let second = late.skip(at);
    one_map(first, component.global_observers@);
    if own.len() > 0 {
        assert(own =~= seq![own[0]]);
        one_map(second, own[0]);
    }
    if split <= i < split + at {
        only_observers_are_called(first, seq![component.global_observers@], i - split);
        assert(first[i - split] == calls[i]);
        if i < j < split + at {
            observers_of_a_map_are_called_once(
                first,
                component.global_observers@,
                i - split,
                j - split,
            );
            assert(first[j - split] == calls[j]);
        }
    }
    if split + at <= i && own.len() > 0 {
        only_observers_are_called(second, own, i - split - at);
        assert(second[i - split - at] == calls[i]);
        if i < j < calls.len() {
            observers_of_a_map_are_called_once(second, own[0], i - split - at, j - split - at);
            assert(second[j - split - at] == calls[j]);
        }
    }
}

/// A new collection has no observers of any kind.
pub proof fn new_collection_has_no_observers(observers: CachedObservers, key: u64, id: usize)
    requires
        observers.is_new(),
    ensures
        !observers.global_observers@.contains_key(key),
        !observers.entity_observers@.contains_key(key),
        !observers.component_observers@.contains_key(id),
{
}

/// Each call runs the observer that its trigger names.
pub proof fn calls_run_the_observers_they_name(calls: Seq<ObserverCall>, i: int)
    ensures
        crate::observer::observers_of(calls).len() == calls.len(),
        0 <= i < calls.len() ==> crate::observer::observers_of(calls)[i].observer
            == calls[i].trigger.observer && crate::observer::observers_of(calls)[i].runner
            == calls[i].runner,
{
}

} // verus!
