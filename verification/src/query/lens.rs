//! Queries that are made from other queries.

use std::sync::Arc;
use vstd::prelude::*;

use crate::entity::location::ArchetypeId;
use crate::query::access::FilteredAccess;
use crate::query::data::{NoFilter, QueryData, QueryFilter};
use crate::query::state::QueryState;
use crate::query::unsafe_query::{QueryLens, UnsafeQuery};
use crate::world::storages::Storages;

verus! {

impl<S, T> QueryState<S, T> {
    /// Whether all archetypes that were found to match have what other data fetches.
    pub open spec fn all_have<D: QueryData>(self, state: D::State, world: Storages) -> bool {
        forall|id: ArchetypeId| #[trigger]
            self.has_matched(id) ==> D::matches(state, world.archetype(id.0 as int).components@)
    }

    /// Returns the state of another query for the archetypes that this one and a second
    /// one were found to match.
    pub fn join_states<U, V, X, Y>(
        &self,
        other: &QueryState<U, V>,
        fetch_state: X,
        filter_state: Y,
        component_access: Arc<FilteredAccess>,
    ) -> (joined: QueryState<X, Y>)
        requires
            self.wf(),
        ensures
            joined.wf(),
            joined.fetch_state == fetch_state,
            joined.filter_state == filter_state,
            joined.component_access == component_access,
            forall|id: ArchetypeId| #[trigger]
                joined.has_matched(id) <==> self.has_matched(id) && other.has_matched(id),
            joined.matched_ids@ == self.matched_ids@.filter(
                |id: ArchetypeId| other.has_matched(id),
            ),
    {
        let mut matched_ids: Vec<ArchetypeId> = Vec::new();
        let ghost shared = |id: ArchetypeId| other.has_matched(id);
        let mut i: usize = 0;
        assert(self.matched_ids@.take(0).filter(shared) =~= Seq::<ArchetypeId>::empty()) by {
            reveal(Seq::filter);
        }
        while i < self.matched_ids.len()
            invariant
                i <= self.matched_ids@.len(),
                shared == |id: ArchetypeId| other.has_matched(id),
                matched_ids@ == self.matched_ids@.take(i as int).filter(shared),
                forall|k: int|
                    0 <= k < matched_ids@.len() ==> self.matched_ids@.take(i as int).contains(
                        #[trigger] matched_ids@[k],
                    ) && other.has_matched(matched_ids@[k]),
                forall|id: ArchetypeId|
                    self.matched_ids@.take(i as int).contains(id) && #[trigger] other.has_matched(
                        id,
                    ) ==> matched_ids@.contains(id),
                forall|a: int, b: int|
                    0 <= a < b < matched_ids@.len() ==> (#[trigger] matched_ids@[a]) != (
                    #[trigger] matched_ids@[b]),
                forall|a: int, b: int|
                    0 <= a < b < self.matched_ids@.len() ==> (#[trigger] self.matched_ids@[a]) != (
                    #[trigger] self.matched_ids@[b]),
            decreases self.matched_ids@.len() - i,
        {
            let id = self.matched_ids[i];
            let ghost before = matched_ids@;
            let ghost first = self.matched_ids@.take(i as int);
            let ghost next = self.matched_ids@.take(i + 1);
            if other.contains_archetype(id) {
                matched_ids.push(id);
            }
            proof {
                reveal(Seq::filter);
                assert(next.drop_last() =~= first);
                assert(next[i as int] == id);
                assert(!first.contains(id)) by {
                    if first.contains(id) {
                        let k = choose|k: int| 0 <= k < first.len() && first[k] == id;
                        assert(self.matched_ids@[k] != self.matched_ids@[i as int]);
                    }
                }
                assert forall|k: int| 0 <= k < matched_ids@.len() implies next.contains(
                    #[trigger] matched_ids@[k],
                ) && other.has_matched(matched_ids@[k]) by {
                    if k < before.len() {
                        let n = choose|n: int| 0 <= n < first.len() && first[n] == before[k];
                        assert(next[n] == before[k]);
                    }
                }
                assert forall|other_id: ArchetypeId|
                    next.contains(other_id) && #[trigger] other.has_matched(
                        other_id,
                    ) implies matched_ids@.contains(other_id) by {
                    if other_id == id {
                        assert(matched_ids@[matched_ids@.len() - 1] == id);
                    } else {
                        let n = choose|n: int| 0 <= n < next.len() && next[n] == other_id;
                        assert(first[n] == other_id);
                        let k = choose|k: int| 0 <= k < before.len() && before[k] == other_id;
                        assert(matched_ids@[k] == other_id);
                    }
                }
            }
            i = i + 1;
        }
        assert(self.matched_ids@.take(i as int) =~= self.matched_ids@);
        let mut matched_archetypes: Vec<bool> = Vec::new();
        let mut n: usize = 0;
        while n < self.matched_archetypes.len() && n <= u32::MAX as usize
            invariant
                n <= self.matched_archetypes@.len(),
                n <= u32::MAX + 1,
                matched_archetypes@.len() == n,
                forall|k: int|
                    0 <= k < n ==> #[trigger] matched_archetypes@[k] == (self.has_matched(
                        ArchetypeId(k as u32),
                    ) && other.has_matched(ArchetypeId(k as u32))),
            decreases self.matched_archetypes@.len() - n,
        {
            let id = ArchetypeId(n as u32);
            matched_archetypes.push(self.contains_archetype(id) && other.contains_archetype(id));
            n = n + 1;
        }
        let joined = QueryState {
            fetch_state,
            filter_state,
            component_access,
            matched_archetypes,
            matched_ids,
        };
        proof {
            assert forall|id: ArchetypeId| #[trigger] joined.has_matched(id) <==> (self.has_matched(
                id,
            ) && other.has_matched(id)) by {
                assert(ArchetypeId(id.0 as u32) == id);
            }
            assert forall|id: ArchetypeId| #[trigger]
                joined.has_matched(id) implies joined.matched_ids@.contains(id) by {
                assert(self.has_matched(id) && other.has_matched(id));
            }
            assert forall|k: int| 0 <= k < joined.matched_ids@.len() implies joined.has_matched(
                #[trigger] joined.matched_ids@[k],
            ) by {
                let id = joined.matched_ids@[k];
                let m = choose|m: int|
                    0 <= m < self.matched_ids@.len() && self.matched_ids@[m] == id;
                assert(self.has_matched(self.matched_ids@[m]));
            }
        }
        joined
    }
}

impl<'w, 's, D: QueryData, F: QueryFilter> UnsafeQuery<'w, 's, D, F> {
    /// Returns a query without a filter for the archetypes of this one, which may fetch
    /// less. It may not access what this one does not access.
    pub fn transmute_lens<E: QueryData>(
        &self,
        fetch_state: E::State,
        component_access: Arc<FilteredAccess>,
    ) -> (lens: QueryLens<'w, E, NoFilter>)
        requires
            self.wf(),
            self.state.component_access.access.includes(component_access.access),
            self.state.all_have::<E>(fetch_state, *self.world),
        ensures
            lens.wf(),
            lens.world == self.world,
            lens.ticks == self.ticks,
            lens.state.fetch_state == fetch_state,
            lens.state.component_access == component_access,
            lens.state.matched_ids@ == self.state.matched_ids@,
    {
        self.transmute_lens_filtered::<E, NoFilter>(fetch_state, (), component_access)
    }

    /// Returns a query for the archetypes of this one, which may fetch less. It may not
    /// access what this one does not access. Its filter is only asked about single
    /// entities.
    pub fn transmute_lens_filtered<E: QueryData, G: QueryFilter>(
        &self,
        fetch_state: E::State,
        filter_state: G::State,
        component_access: Arc<FilteredAccess>,
    ) -> (lens: QueryLens<'w, E, G>)
        requires
            self.wf(),
            self.state.component_access.access.includes(component_access.access),
            self.state.all_have::<E>(fetch_state, *self.world),
        ensures
            lens.wf(),
            lens.world == self.world,
            lens.ticks == self.ticks,
            lens.state.fetch_state == fetch_state,
            lens.state.filter_state == filter_state,
            lens.state.component_access == component_access,
            lens.state.matched_ids@ == self.state.matched_ids@,
    {
        let state = self.state.join_states(
            self.state,
            fetch_state,
            filter_state,
            component_access,
        );
        proof {
            all_are_kept(self.state.matched_ids@, |id: ArchetypeId| self.state.has_matched(id));
        }
        QueryLens { world: self.world, state, ticks: self.ticks }
    }

    /// Returns a query without a filter for the archetypes of this one and another one. It
    /// may not access what neither of them accesses.
    pub fn join<E: QueryData, N: QueryData>(
        &self,
        other: UnsafeQuery<'w, '_, E, NoFilter>,
        fetch_state: N::State,
        component_access: Arc<FilteredAccess>,
    ) -> (lens: QueryLens<'w, N, NoFilter>)
        requires
            self.wf(),
            other.wf(),
            other.world == self.world,
            joined_includes(
                *self.state.component_access,
                *other.state.component_access,
                *component_access,
            ),
            joined_have::<D, F, E, NoFilter, N>(*self, other, fetch_state),
        ensures
            lens.wf(),
            lens.world == self.world,
            lens.ticks == self.ticks,
            lens.state.fetch_state == fetch_state,
            lens.state.component_access == component_access,
            lens.state.matched_ids@ == self.state.matched_ids@.filter(
                |id: ArchetypeId| other.state.has_matched(id),
            ),
    {
        self.join_filtered::<E, NoFilter, N, NoFilter>(other, fetch_state, (), component_access)
    }

    /// Returns a query for the archetypes of this one and another one. It may not access
    /// what neither of them accesses. Its filter is only asked about single entities.
    pub fn join_filtered<E: QueryData, G: QueryFilter, N: QueryData, M: QueryFilter>(
        &self,
        other: UnsafeQuery<'w, '_, E, G>,
        fetch_state: N::State,
        filter_state: M::State,
        component_access: Arc<FilteredAccess>,
    ) -> (lens: QueryLens<'w, N, M>)
        requires
            self.wf(),
            other.wf(),
            other.world == self.world,
            joined_includes(
                *self.state.component_access,
                *other.state.component_access,
                *component_access,
            ),
            joined_have::<D, F, E, G, N>(*self, other, fetch_state),
        ensures
            lens.wf(),
            lens.world == self.world,
            lens.ticks == self.ticks,
            lens.state.fetch_state == fetch_state,
            lens.state.filter_state == filter_state,
            lens.state.component_access == component_access,
            lens.state.matched_ids@ == self.state.matched_ids@.filter(
                |id: ArchetypeId| other.state.has_matched(id),
            ),
    {
        let state = self.state.join_states(
            other.state,
            fetch_state,
            filter_state,
            component_access,
        );
        QueryLens { world: self.world, state, ticks: self.ticks }
    }
}

/// Whether two accesses together read and write all that another one does.
pub open spec fn joined_includes(
    one: FilteredAccess,
    other: FilteredAccess,
    access: FilteredAccess,
) -> bool {
    forall|id: crate::component::ComponentId|
        (#[trigger] access.access.reads(id) ==> one.access.reads(id) || other.access.reads(id))
            && (access.access.modifies(id) ==> one.access.modifies(id) || other.access.modifies(
            id,
        ))
}

/// Whether all archetypes that two queries match have what other data fetches.
pub open spec fn joined_have<
    D: QueryData,
    F: QueryFilter,
    E: QueryData,
    G: QueryFilter,
    N: QueryData,
>(one: UnsafeQuery<D, F>, other: UnsafeQuery<E, G>, state: N::State) -> bool {
    forall|id: ArchetypeId| #[trigger]
        one.state.has_matched(id) && other.state.has_matched(id) ==> N::matches(
            state,
            one.world.archetype(id.0 as int).components@,
        )
}

proof fn all_are_kept(ids: Seq<ArchetypeId>, kept: spec_fn(ArchetypeId) -> bool)
    requires
        forall|i: int| 0 <= i < ids.len() ==> kept(#[trigger] ids[i]),
    ensures
        ids.filter(kept) == ids,
    decreases ids.len(),
{
    reveal(Seq::filter);
    if ids.len() > 0 {
        assert forall|i: int| 0 <= i < ids.drop_last().len() implies kept(
            #[trigger] ids.drop_last()[i],
        ) by {
            assert(kept(ids[i]));
        }
        all_are_kept(ids.drop_last(), kept);
        assert(kept(ids[ids.len() - 1]));
        assert(ids.drop_last().push(ids.last()) =~= ids);
    }
}

impl<'w, D: QueryData, F: QueryFilter> QueryLens<'w, D, F> {
    /// Whether the state was made for the world.
    pub open(crate) spec fn wf(self) -> bool {
        &&& self.world.wf()
        &&& self.state.wf()
        &&& self.state.belongs::<D>(*self.world)
    }

    /// Returns the query.
    pub fn query<'a>(&'a self) -> (query: UnsafeQuery<'w, 'a, D, F>)
        requires
            self.wf(),
        ensures
            query.wf(),
            query.world == self.world,
            *query.state == self.state,
            query.ticks == self.ticks,
    {
        UnsafeQuery::new(self.world, &self.state, self.ticks)
    }
}

} // verus!
