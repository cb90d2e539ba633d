//! What is kept for a query.

use std::sync::Arc;
use vstd::prelude::*;

use crate::archetype::Archetype;
use crate::entity::location::ArchetypeId;
use crate::query::access::FilteredAccess;
use crate::query::data::{QueryData, QueryFilter};
use crate::world::storages::Storages;

verus! {

/// What is kept for a query: the states of its data and its filter, what it accesses,
/// and the archetypes that it matches.
pub struct QueryState<S, T> {
    /// The state of the data.
    pub fetch_state: S,
    /// The state of the filter.
    pub filter_state: T,
    /// What the query accesses.
    pub component_access: Arc<FilteredAccess>,
    /// Whether each archetype matches, as far as archetypes have been looked at.
    pub matched_archetypes: Vec<bool>,
    /// The archetypes that match, in the order in which they were found.
    pub matched_ids: Vec<ArchetypeId>,
}

impl<S, T> QueryState<S, T> {
    /// Whether an archetype has been found to match.
    pub open spec fn has_matched(self, id: ArchetypeId) -> bool {
        id.0 < self.matched_archetypes@.len() && self.matched_archetypes@[id.0 as int]
    }

    /// Whether the archetypes that match are listed, each of them once.
    pub open spec fn wf(self) -> bool {
        &&& forall|i: int|
            0 <= i < self.matched_ids@.len() ==> self.has_matched(#[trigger] self.matched_ids@[i])
        &&& forall|i: int, j: int|
            0 <= i < j < self.matched_ids@.len() ==> (#[trigger] self.matched_ids@[i]) != (
            #[trigger] self.matched_ids@[j])
        &&& forall|id: ArchetypeId| #[trigger]
            self.has_matched(id) ==> self.matched_ids@.contains(id)
    }

    /// Whether all archetypes that were found to match belong to the given storages and
    /// have what is fetched, for the given data.
    pub open spec fn belongs<D: QueryData<State = S>>(self, storages: Storages) -> bool {
        forall|id: ArchetypeId| #[trigger]
            self.has_matched(id) ==> id.0 < storages.archetypes.archetypes@.len() && D::matches(
                self.fetch_state,
                storages.archetype(id.0 as int).components@,
            )
    }

    /// Whether an archetype matches, for the given data and filter.
    pub open spec fn matches<D: QueryData<State = S>, F: QueryFilter<State = T>>(
        self,
        archetype: Archetype,
    ) -> bool {
        &&& D::matches(self.fetch_state, archetype.components@)
        &&& F::matches(self.filter_state, archetype.components@)
        &&& self.component_access.admits(archetype.components@)
    }

    /// Creates the state of a query that has not looked at any archetype.
    pub fn new_uninitialized(
        fetch_state: S,
        filter_state: T,
        component_access: Arc<FilteredAccess>,
    ) -> (state: Self)
        ensures
            state.wf(),
            state.fetch_state == fetch_state,
            state.filter_state == filter_state,
            state.component_access == component_access,
            state.matched_ids@.len() == 0,
            forall|id: ArchetypeId| !(#[trigger] state.has_matched(id)),
    {
        QueryState {
            fetch_state,
            filter_state,
            component_access,
            matched_archetypes: Vec::new(),
            matched_ids: Vec::new(),
        }
    }

    /// Returns whether an archetype has been found to match.
    pub fn contains_archetype(&self, id: ArchetypeId) -> (matched: bool)
        ensures
            matched == self.has_matched(id),
    {
        id.index() < self.matched_archetypes.len() && self.matched_archetypes[id.index()]
    }

    /// Returns whether an archetype matches.
    pub fn archetype_matches<D: QueryData<State = S>, F: QueryFilter<State = T>>(
        &self,
        archetype: &Archetype,
    ) -> (matches: bool)
        ensures
            matches == self.matches::<D, F>(*archetype),
    {
        D::matches_component_set(&self.fetch_state, &archetype.components)
            && F::matches_component_set(&self.filter_state, &archetype.components)
            && self.component_access.matches_component_set(&archetype.components)
    }

    /// Adds an archetype that matches.
    pub fn new_archetype_unchecked(&mut self, archetype: &Archetype)
        requires
            old(self).wf(),
            archetype.id.0 < u32::MAX,
        ensures
            final(self).wf(),
            final(self).fetch_state == old(self).fetch_state,
            final(self).filter_state == old(self).filter_state,
            final(self).component_access == old(self).component_access,
            forall|id: ArchetypeId| #[trigger]
                final(self).has_matched(id) <==> old(self).has_matched(id) || id == archetype.id,
            final(self).matched_ids@ == (if old(self).has_matched(archetype.id) {
                old(self).matched_ids@
            } else {
                old(self).matched_ids@.push(archetype.id)
            }),
    {
        let id = archetype.id;
        if self.contains_archetype(id) {
            return;
        }
        while self.matched_archetypes.len() <= id.index()
            invariant
                self.matched_ids == old(self).matched_ids,
                self.fetch_state == old(self).fetch_state,
                self.filter_state == old(self).filter_state,
                self.component_access == old(self).component_access,
                id.0 < u32::MAX,
                old(self).matched_archetypes@.len() <= self.matched_archetypes@.len(),
                self.matched_archetypes@.len() <= id.0 + 1 || self.matched_archetypes@ == old(
                    self,
                ).matched_archetypes@,
                forall|i: int|
                    0 <= i < self.matched_archetypes@.len() ==> #[trigger]
                    self.matched_archetypes@[i] == (i < old(self).matched_archetypes@.len()
                        && old(self).matched_archetypes@[i]),
            decreases id.0 + 1 - self.matched_archetypes@.len(),
        {
            self.matched_archetypes.push(false);
        }
        self.matched_archetypes.set(id.index(), true);
        self.matched_ids.push(id);
        proof {
            assert forall|other: ArchetypeId| #[trigger] self.has_matched(other) <==> (old(
                self,
            ).has_matched(other) || other == id) by {
                if other != id {
                    assert(other.0 != id.0);
                }
            }
            assert forall|other: ArchetypeId| #[trigger]
                self.has_matched(other) implies self.matched_ids@.contains(other) by {
                if other == id {
                    assert(self.matched_ids@[self.matched_ids@.len() - 1] == id);
                } else {
                    let i = choose|i: int|
                        0 <= i < old(self).matched_ids@.len() && old(self).matched_ids@[i]
                            == other;
                    assert(self.matched_ids@[i] == other);
                }
            }
            assert forall|i: int, j: int| 0 <= i < j < self.matched_ids@.len() implies (
            #[trigger] self.matched_ids@[i]) != (#[trigger] self.matched_ids@[j]) by {
                assert(old(self).has_matched(old(self).matched_ids@[i]));
            }
            assert forall|i: int| 0 <= i < self.matched_ids@.len() implies self.has_matched(
                #[trigger] self.matched_ids@[i],
            ) by {
                if i < old(self).matched_ids@.len() {
                    assert(old(self).has_matched(old(self).matched_ids@[i]));
                }
            }
        }
    }

    /// Looks at all archetypes, and adds those that match.
    pub fn update_archetypes<D: QueryData<State = S>, F: QueryFilter<State = T>>(
        &mut self,
        storages: &Storages,
    )
        requires
            old(self).wf(),
            storages.wf(),
            old(self).belongs::<D>(*storages),
        ensures
            final(self).wf(),
            final(self).fetch_state == old(self).fetch_state,
            final(self).filter_state == old(self).filter_state,
            final(self).component_access == old(self).component_access,
            final(self).belongs::<D>(*storages),
            forall|id: ArchetypeId| #[trigger]
                final(self).has_matched(id) <==> old(self).has_matched(id) || (id.0
                    < storages.archetypes.archetypes@.len() && old(self).matches::<D, F>(
                    storages.archetype(id.0 as int),
                )),
            old(self).matched_ids@.len() <= final(self).matched_ids@.len(),
            final(self).matched_ids@.take(old(self).matched_ids@.len() as int) == old(
                self,
            ).matched_ids@,
            forall|a: int, b: int|
                old(self).matched_ids@.len() <= a < b < final(self).matched_ids@.len() ==> (
                #[trigger] final(self).matched_ids@[a]).0 < (
                #[trigger] final(self).matched_ids@[b]).0,
    {
        let mut i: usize = 0;
        assert(self.matched_ids@.take(self.matched_ids@.len() as int) =~= self.matched_ids@);
        while i < storages.archetypes.archetypes.len()
            invariant
                self.wf(),
                storages.wf(),
                i <= storages.archetypes.archetypes@.len(),
                self.fetch_state == old(self).fetch_state,
                self.filter_state == old(self).filter_state,
                self.component_access == old(self).component_access,
                self.belongs::<D>(*storages),
                forall|id: ArchetypeId| #[trigger]
                    self.has_matched(id) <==> old(self).has_matched(id) || (id.0 < i && old(
                        self,
                    ).matches::<D, F>(storages.archetype(id.0 as int))),
                old(self).matched_ids@.len() <= self.matched_ids@.len(),
                self.matched_ids@.take(old(self).matched_ids@.len() as int) == old(
                    self,
                ).matched_ids@,
                forall|a: int|
                    old(self).matched_ids@.len() <= a < self.matched_ids@.len() ==> (
                    #[trigger] self.matched_ids@[a]).0 < i,
                forall|a: int, b: int|
                    old(self).matched_ids@.len() <= a < b < self.matched_ids@.len() ==> (
                    #[trigger] self.matched_ids@[a]).0 < (#[trigger] self.matched_ids@[b]).0,
            decreases storages.archetypes.archetypes@.len() - i,
        {
            let ghost before = *self;
            let archetype = &storages.archetypes.archetypes[i];
            assert(storages.archetype(i as int).id.0 == i);
            if self.archetype_matches::<D, F>(archetype) {
                self.new_archetype_unchecked(archetype);
            }
            proof {
                assert(self.matched_ids@.take(old(self).matched_ids@.len() as int)
                    =~= before.matched_ids@.take(old(self).matched_ids@.len() as int));
                assert forall|id: ArchetypeId| #[trigger] self.has_matched(id) <==> (old(
                    self,
                ).has_matched(id) || (id.0 < i + 1 && old(self).matches::<D, F>(
                    storages.archetype(id.0 as int),
                ))) by {
                    assert(before.has_matched(id) <==> (old(self).has_matched(id) || (id.0 < i
                        && old(self).matches::<D, F>(storages.archetype(id.0 as int)))));
                    if id.0 == i {
                        assert(id == archetype.id);
                    }
                }
                assert forall|id: ArchetypeId| #[trigger] self.has_matched(id) implies id.0
                    < storages.archetypes.archetypes@.len() && D::matches(
                    self.fetch_state,
                    storages.archetype(id.0 as int).components@,
                ) by {
                    if before.has_matched(id) {
                        assert(D::matches(
                            before.fetch_state,
                            storages.archetype(id.0 as int).components@,
                        ));
                    }
                }
            }
            i = i + 1;
        }
    }
}

} // verus!
