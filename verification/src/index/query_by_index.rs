//! Queries by the value of a component.
//!
//! Every value of an indexed component has a number. The bits of the number are marked by
//! marker components, so that entities with different values are in different archetypes.

use std::collections::HashMap;
use std::sync::Arc;
use vstd::prelude::*;

use crate::archetype::Archetype;
use crate::component::ComponentId;
use crate::entity::location::ArchetypeId;
use crate::query::access::FilteredAccess;
use crate::query::data::{Both, QueryData, QueryFilter, ReadOnlyVersion, Ticks, With};
use crate::query::state::QueryState;
use crate::query::unsafe_query::{Query, UnsafeQuery};
use crate::system::meta::RunnableSystemMeta;
use crate::world::storages::Storages;

verus! {

/// The index of a component by its value.
pub struct Index {
    /// The component.
    pub component: ComponentId,
    /// The number of each value.
    pub mapping: HashMap<u64, usize>,
    /// The marker components, that of the lowest bit first.
    pub markers: Arc<Vec<ComponentId>>,
}

/// The number of which the bits are marked in an archetype, as far as the first `end`
/// bits go.
pub open spec fn marked_number(
    markers: Seq<ComponentId>,
    components: Seq<ComponentId>,
    end: int,
) -> int
    decreases end,
{
    if end <= 0 {
        0
    } else {
        marked_number(markers, components, end - 1) + (if components.contains(markers[end - 1]) {
            vstd::arithmetic::power2::pow2((end - 1) as nat) as int
        } else {
            0
        })
    }
}

/// A number that is marked is below the number that the markers can mark.
pub proof fn marked_number_is_small(
    markers: Seq<ComponentId>,
    components: Seq<ComponentId>,
    end: int,
)
    requires
        0 <= end,
    ensures
        0 <= marked_number(markers, components, end) < vstd::arithmetic::power2::pow2(end as nat),
    decreases end,
{
    vstd::arithmetic::power2::lemma_pow2_pos(end as nat);
    if end == 0 {
        vstd::arithmetic::power2::lemma2_to64();
    } else {
        vstd::arithmetic::power2::lemma_pow2_pos((end - 1) as nat);
        vstd::arithmetic::power2::lemma_pow2_unfold(end as nat);
        marked_number_is_small(markers, components, end - 1);
    }
}

/// What is kept for a query by the value of a component.
pub struct QueryByIndexState<S, T> {
    /// The state of the query without archetypes.
    pub empty_query_state: QueryState<S, (T, ComponentId)>,
    /// The states of the query with the archetypes of one value each, by the number of
    /// the value.
    pub query_states: Vec<QueryState<S, (T, ComponentId)>>,
    /// The id of the index.
    pub index_state: ComponentId,
    /// The marker components.
    pub markers: Arc<Vec<ComponentId>>,
}

/// Queries by the value of a component.
pub struct QueryByIndex<'w, 's, D: QueryData, F: QueryFilter> {
    /// What is stored in the world.
    pub world: &'w Storages,
    /// The state of the query without archetypes.
    pub empty_query_state: &'s QueryState<D::State, (F::State, ComponentId)>,
    /// The states of the query with the archetypes of one value each.
    pub query_states: &'s Vec<QueryState<D::State, (F::State, ComponentId)>>,
    /// The last run and this run.
    pub ticks: Ticks,
    /// The index.
    pub index: &'w Index,
}

/// Whether two states are of the same query.
pub open spec fn same_query<S, T>(one: QueryState<S, T>, other: QueryState<S, T>) -> bool {
    &&& one.fetch_state == other.fetch_state
    &&& one.filter_state == other.filter_state
    &&& one.component_access == other.component_access
}

impl<S, T> QueryByIndexState<S, T> {
    /// Whether the states are of the same query and list the archetypes that match.
    pub open spec fn wf(self) -> bool {
        &&& self.empty_query_state.wf()
        &&& self.empty_query_state.matched_ids@.len() == 0
        &&& self.markers@.len() < usize::BITS
        &&& forall|k: int|
            0 <= k < self.query_states@.len() ==> (#[trigger] self.query_states@[k]).wf()
                && same_query(self.query_states@[k], self.empty_query_state)
    }

    /// The number of which the bits are marked in an archetype.
    pub open spec fn number_of(self, archetype: Archetype) -> int {
        marked_number(self.markers@, archetype.components@, self.markers@.len() as int)
    }

    /// Whether each archetype that was found to match belongs to the storages, and is listed
    /// in the state of its number alone.
    pub open spec fn sorted(self, storages: Storages) -> bool {
        forall|k: int, id: ArchetypeId|
            0 <= k < self.query_states@.len() && #[trigger] self.query_states@[k].has_matched(id)
                ==> id.0 < storages.archetypes.archetypes@.len() && self.number_of(
                storages.archetype(id.0 as int),
            ) == k
    }

    /// Whether the state with a number has found an archetype to match.
    pub open spec fn number_has(self, number: int, id: ArchetypeId) -> bool {
        0 <= number < self.query_states@.len() && self.query_states@[number].has_matched(id)
    }
}

impl<S: Copy, T: Copy> QueryByIndexState<S, T> {
    /// Creates the state for an index, and adds what the query accesses to what is known
    /// of its system. No archetype has been looked at.
    pub fn init_state(
        index: &Index,
        index_state: ComponentId,
        fetch_state: S,
        filter_state: T,
        component_access: Arc<FilteredAccess>,
        system_meta: &mut RunnableSystemMeta,
    ) -> (state: Self)
        requires
            index.markers@.len() < usize::BITS,
        ensures
            state.wf(),
            state.query_states@.len() == 0,
            state.index_state == index_state,
            state.markers == index.markers,
            state.empty_query_state.fetch_state == fetch_state,
            state.empty_query_state.filter_state == (filter_state, index.component),
            state.empty_query_state.component_access == component_access,
            final(system_meta).component_access_set.filtered_accesses@ == old(
                system_meta,
            ).component_access_set.filtered_accesses@.push(component_access),
            final(system_meta).component_access_set.resource_reads@ == old(
                system_meta,
            ).component_access_set.resource_reads@.push(index_state),
            final(system_meta).component_access_set.combined_access.joins(
                old(system_meta).component_access_set.combined_access,
                component_access.access,
            ),
            final(system_meta).archetype_component_access == old(
                system_meta,
            ).archetype_component_access,
            final(system_meta).is_send == old(system_meta).is_send,
            final(system_meta).is_exclusive == old(system_meta).is_exclusive,
            final(system_meta).has_deferred == old(system_meta).has_deferred,
    {
        let markers = index.markers.clone();
        let empty_query_state = QueryState::new_uninitialized(
            fetch_state,
            (filter_state, index.component),
            component_access.clone(),
        );
        system_meta.component_access_set.add_part(component_access);
        system_meta.component_access_set.add_resource_read(index_state);
        QueryByIndexState { empty_query_state, query_states: Vec::new(), index_state, markers }
    }

    /// Returns the number of which the bits are marked in an archetype.
    fn marked(&self, archetype: &Archetype) -> (number: usize)
        requires
            self.markers@.len() < usize::BITS,
        ensures
            number == self.number_of(*archetype),
            number < usize::MAX,
    {
        let mut number: usize = 0;
        let mut bit: usize = 1;
        let mut i: usize = 0;
        proof {
            vstd::arithmetic::power2::lemma2_to64();
            vstd::bits::lemma_usize_pow2_no_overflow(self.markers@.len());
            marked_number_is_small(
                self.markers@,
                archetype.components@,
                self.markers@.len() as int,
            );
        }
        while i < self.markers.len()
            invariant
                i <= self.markers@.len(),
                self.markers@.len() < usize::BITS,
                bit == vstd::arithmetic::power2::pow2(i as nat),
                number == marked_number(self.markers@, archetype.components@, i as int),
            decreases self.markers@.len() - i,
        {
            proof {
                vstd::bits::lemma_usize_pow2_no_overflow((i + 1) as nat);
                vstd::arithmetic::power2::lemma_pow2_unfold((i + 1) as nat);
                marked_number_is_small(self.markers@, archetype.components@, i + 1);
            }
            if archetype.contains(self.markers[i]) {
                number = number + bit;
            }
            bit = bit * 2;
            i = i + 1;
        }
        number
    }

    /// Returns a state of the same query that has not looked at any archetype.
    fn clone_empty(&self) -> (state: QueryState<S, (T, ComponentId)>)
        ensures
            state.wf(),
            same_query(state, self.empty_query_state),
            forall|id: ArchetypeId| !(#[trigger] state.has_matched(id)),
    {
        QueryState::new_uninitialized(
            self.empty_query_state.fetch_state,
            self.empty_query_state.filter_state,
            self.empty_query_state.component_access.clone(),
        )
    }

    /// Looks at an archetype. If the query matches it, adds it to the state of the number of
    /// which the bits are marked in it, and adds what the query accesses in it to what is
    /// known of the system.
    pub fn new_archetype<D: QueryData<State = S>, F: QueryFilter<State = T>>(
        &mut self,
        archetype: &Archetype,
        system_meta: &mut RunnableSystemMeta,
    )
        requires
            old(self).wf(),
            archetype.id.0 < u32::MAX,
        ensures
            final(self).wf(),
            final(self).empty_query_state == old(self).empty_query_state,
            final(self).index_state == old(self).index_state,
            final(self).markers == old(self).markers,
            ({
                let matches = old(self).empty_query_state.matches::<D, Both<F, With>>(*archetype);
                let number = old(self).number_of(*archetype);
                &&& !matches ==> *final(self) == *old(self) && *final(system_meta) == *old(
                    system_meta,
                )
                &&& matches ==> {
                    &&& final(self).query_states@.len() == (if number < old(
                        self,
                    ).query_states@.len() {
                        old(self).query_states@.len() as int
                    } else {
                        number + 1
                    })
                    &&& forall|k: int, id: ArchetypeId| #[trigger]
                        final(self).number_has(k, id) <==> old(self).number_has(k, id) || k
                            == number && id == archetype.id
                    &&& *final(system_meta) == (RunnableSystemMeta {
                        archetype_component_access: final(system_meta).archetype_component_access,
                        ..*old(system_meta)
                    })
                    &&& final(system_meta).archetype_component_access.reads_and_writes@ == old(
                        system_meta,
                    ).archetype_component_access.reads_and_writes@
                        + crate::query::access::archetype_components(
                        *archetype,
                        |id: ComponentId|
                            old(self).empty_query_state.component_access.access.reads(id),
                        archetype.components@.len() as int,
                    )
                    &&& final(system_meta).archetype_component_access.writes@ == old(
                        system_meta,
                    ).archetype_component_access.writes@
                        + crate::query::access::archetype_components(
                        *archetype,
                        |id: ComponentId|
                            old(self).empty_query_state.component_access.access.modifies(id),
                        archetype.components@.len() as int,
                    )
                }
            }),
    {
        if self.empty_query_state.archetype_matches::<D, Both<F, With>>(archetype) {
            let index: usize = self.marked(archetype);
            // Grow the list, with states that match nothing yet.
            while self.query_states.len() <= index
                invariant
                    self.wf(),
                    index < usize::MAX,
                    self.empty_query_state == old(self).empty_query_state,
                    self.index_state == old(self).index_state,
                    self.markers == old(self).markers,
                    old(self).query_states@.len() <= self.query_states@.len(),
                    self.query_states@.len() <= index + 1 || self.query_states@ == old(
                        self,
                    ).query_states@,
                    forall|k: int, id: ArchetypeId| #[trigger]
                        self.number_has(k, id) <==> old(self).number_has(k, id),
                decreases index + 1 - self.query_states@.len(),
            {
                let ghost before = *self;
                let state = self.clone_empty();
                self.query_states.push(state);
                proof {
                    assert forall|k: int, id: ArchetypeId| #[trigger]
                        self.number_has(k, id) <==> old(self).number_has(k, id) by {
                        assert(before.number_has(k, id) <==> old(self).number_has(k, id));
                    }
                }
            }
            let ghost before = *self;
            self.query_states[index].new_archetype_unchecked(archetype);
            system_meta.archetype_component_access.add_archetype(
                archetype,
                &self.query_states[index].component_access.access,
            );
            proof {
                assert forall|k: int, id: ArchetypeId| #[trigger]
                    self.number_has(k, id) <==> (old(self).number_has(k, id) || k == index && id
                        == archetype.id) by {
                    assert(before.number_has(k, id) <==> old(self).number_has(k, id));
                    if k == index {
                        assert(self.query_states@[k].has_matched(id) <==> (
                        before.query_states@[k].has_matched(id) || id == archetype.id));
                    }
                }
            }
        }
    }

    /// Returns whether the index is there that the query needs.
    pub fn validate_param(&self, index: Option<&Index>) -> (valid: bool)
        ensures
            valid == (index is Some),
    {
        index.is_some()
    }

    /// Returns the queries by value for a run of a system.
    pub fn get_param<'w, 's, D: QueryData<State = S>, F: QueryFilter<State = T>>(
        &'s self,
        world: &'w Storages,
        index: &'w Index,
        last_run: u32,
        change_tick: u32,
    ) -> (queries: QueryByIndex<'w, 's, D, F>)
        ensures
            queries.world == world,
            *queries.empty_query_state == self.empty_query_state,
            *queries.query_states == self.query_states,
            queries.ticks == (Ticks { last_run, this_run: change_tick }),
            queries.index == index,
    {
        QueryByIndex {
            world,
            empty_query_state: &self.empty_query_state,
            query_states: &self.query_states,
            ticks: Ticks { last_run, this_run: change_tick },
            index,
        }
    }
}

impl<'w, 's, D: QueryData, F: QueryFilter> QueryByIndex<'w, 's, D, F> {
    /// The state of the query for a value: the one with the number of the value, or the one
    /// without archetypes if the value has no number or no archetype.
    pub open spec fn state_of(self, value: u64) -> QueryState<D::State, (F::State, ComponentId)> {
        if self.index.mapping@.contains_key(value) && self.index.mapping@[value]
            < self.query_states@.len() {
            self.query_states@[self.index.mapping@[value] as int]
        } else {
            *self.empty_query_state
        }
    }

    /// Returns the query for the entities with the given value of the component.
    pub fn at_mut(&mut self, value: u64) -> (query: Query<'w, 's, D, Both<F, With>>)
        ensures
            *final(self) == *old(self),
            query.inner.world == old(self).world,
            *query.inner.state == old(self).state_of(value),
            query.inner.ticks == old(self).ticks,
    {
        UnsafeQuery::<D, Both<F, With>>::new(
            self.world,
            self.state_for_value(value),
            self.ticks,
        ).query()
    }

    /// Returns the query for the entities with the given value of the component, without the
    /// right to write.
    pub fn at<R: ReadOnlyVersion<D>>(&self, value: u64) -> (query: Query<
        'w,
        's,
        R,
        Both<F, With>,
    >)
        ensures
            query.inner.world == self.world,
            *query.inner.state == self.state_of(value),
            query.inner.ticks == self.ticks,
    {
        UnsafeQuery::<R, Both<F, With>>::new(
            self.world,
            self.state_for_value(value),
            self.ticks,
        ).query()
    }

    /// Returns the state of the query for a value.
    fn state_for_value(&self, value: u64) -> (state: &'s QueryState<
        D::State,
        (F::State, ComponentId),
    >)
        ensures
            *state == self.state_of(value),
    {
        match self.index.mapping.get(&value) {
            Some(number) => {
                if *number < self.query_states.len() {
                    &self.query_states[*number]
                } else {
                    // No archetype with the value has been seen yet.
                    self.empty_query_state
                }
            },
            // No entity has the value.
            None => self.empty_query_state,
        }
    }
}

/// Looking at an archetype of a world keeps archetypes sorted by their numbers, so that a
/// query for one value does not match archetypes of another one.
pub proof fn new_archetype_keeps_sorted<S, T>(
    before: QueryByIndexState<S, T>,
    after: QueryByIndexState<S, T>,
    storages: Storages,
    i: int,
)
    requires
        before.sorted(storages),
        0 <= i < storages.archetypes.archetypes@.len(),
        storages.archetype(i).id.0 == i,
        after.markers == before.markers,
        forall|k: int, id: ArchetypeId| #[trigger]
            after.number_has(k, id) <==> before.number_has(k, id) || k == before.number_of(
                storages.archetype(i),
            ) && id == storages.archetype(i).id,
    ensures
        after.sorted(storages),
{
    assert forall|k: int, id: ArchetypeId|
        0 <= k < after.query_states@.len() && #[trigger] after.query_states@[k].has_matched(
            id,
        ) implies id.0 < storages.archetypes.archetypes@.len() && after.number_of(
        storages.archetype(id.0 as int),
    ) == k by {
        assert(after.number_has(k, id));
        if before.number_has(k, id) {
            assert(before.query_states@[k].has_matched(id));
        }
    }
}

/// A query for a value only matches archetypes of which the number is that of the value.
pub proof fn query_matches_its_value<'w, 's, D: QueryData, F: QueryFilter>(
    state: QueryByIndexState<D::State, F::State>,
    queries: QueryByIndex<'w, 's, D, F>,
    value: u64,
    id: ArchetypeId,
)
    requires
        state.wf(),
        state.sorted(*queries.world),
        *queries.empty_query_state == state.empty_query_state,
        *queries.query_states == state.query_states,
        queries.state_of(value).has_matched(id),
    ensures
        queries.index.mapping@.contains_key(value),
        id.0 < queries.world.archetypes.archetypes@.len(),
        state.number_of(queries.world.archetype(id.0 as int)) == queries.index.mapping@[value],
{
    if !(queries.index.mapping@.contains_key(value) && queries.index.mapping@[value]
        < queries.query_states@.len()) {
        assert(state.empty_query_state.matched_ids@.contains(id));
    }
}

/// Archetypes with different marked bits have different numbers: the number tells of every
/// marker whether the archetype has it.
pub proof fn numbers_tell_markers_apart(
    markers: Seq<ComponentId>,
    one: Seq<ComponentId>,
    other: Seq<ComponentId>,
    end: int,
    i: int,
)
    requires
        0 <= i < end <= markers.len(),
        marked_number(markers, one, end) == marked_number(markers, other, end),
    ensures
        one.contains(markers[i]) == other.contains(markers[i]),
    decreases end,
{
    let bit = vstd::arithmetic::power2::pow2((end - 1) as nat) as int;
    marked_number_is_small(markers, one, end - 1);
    marked_number_is_small(markers, other, end - 1);
    assert(one.contains(markers[end - 1]) == other.contains(markers[end - 1]));
    if i < end - 1 {
        numbers_tell_markers_apart(markers, one, other, end - 1, i);
    }
}

/// A bit of the number of an archetype is set exactly if the archetype has the marker with the
/// position of the bit.
pub proof fn markers_are_the_bits_of_the_number(
    markers: Seq<ComponentId>,
    components: Seq<ComponentId>,
    end: int,
    i: int,
)
    requires
        0 <= i < end <= markers.len(),
    ensures
        (marked_number(markers, components, end) / vstd::arithmetic::power2::pow2(i as nat) as int)
            % 2 == 1 <==> exists|k: int|
            0 <= k < components.len() && components[k] == markers[i],
    decreases end,
{
    let before = marked_number(markers, components, end - 1);
    let high = vstd::arithmetic::power2::pow2((end - 1) as nat) as int;
    let low = vstd::arithmetic::power2::pow2(i as nat) as int;
    vstd::arithmetic::power2::lemma_pow2_pos(i as nat);
    vstd::arithmetic::power2::lemma_pow2_pos((end - 1) as nat);
    marked_number_is_small(markers, components, end - 1);
    let set = components.contains(markers[end - 1]);
    if i == end - 1 {
        vstd::arithmetic::div_mod::lemma_basic_div(before, low);
        if set {
            vstd::arithmetic::div_mod::lemma_hoist_over_denominator(before, 1, low as nat);
        }
    } else {
        markers_are_the_bits_of_the_number(markers, components, end - 1, i);
        if set {
            let step = vstd::arithmetic::power2::pow2((end - 1 - i) as nat) as int;
            let half = vstd::arithmetic::power2::pow2((end - 2 - i) as nat) as int;
            vstd::arithmetic::power2::lemma_pow2_adds((end - 1 - i) as nat, i as nat);
            vstd::arithmetic::power2::lemma_pow2_unfold((end - 1 - i) as nat);
            vstd::arithmetic::div_mod::lemma_hoist_over_denominator(before, step, low as nat);
            assert(step == 2 * half);
            assert((before + high) / low == before / low + step);
        }
    }
}

/// States of the same query fetch and filter the same, and access the same.
pub proof fn states_of_one_query_agree<S, T>(one: QueryState<S, T>, other: QueryState<S, T>)
    requires
        same_query(one, other),
    ensures
        one.fetch_state == other.fetch_state,
        one.filter_state == other.filter_state,
        one.component_access == other.component_access,
{
}

} // verus!
