//! Ways to go through what a query matches.

use vstd::prelude::*;

use crate::entity::location::{ArchetypeId, TableRow};
use crate::entity::Entity;
use crate::query::combinations::choose_positions;
use crate::query::data::{Place, QueryData, QueryFilter};
use crate::query::unsafe_query::UnsafeQuery;

verus! {

/// How items are divided into batches that are handed to threads.
#[derive(Clone, Copy, Debug, PartialEq, Eq, Structural)]
pub struct BatchingStrategy {
    /// The least size of a batch.
    pub batch_size_min: usize,
    /// The largest size of a batch.
    pub batch_size_max: usize,
    /// The number of batches for each thread.
    pub batches_per_thread: usize,
}

impl BatchingStrategy {
    /// The strategy that leaves the size of batches open.
    #[verifier::allow_in_spec]
    pub fn new() -> Self
        returns
            (BatchingStrategy {
                batch_size_min: 1,
                batch_size_max: usize::MAX,
                batches_per_thread: 1,
            }),
    {
        BatchingStrategy { batch_size_min: 1, batch_size_max: usize::MAX, batches_per_thread: 1 }
    }
}

/// The items of a query, to be gone through by several threads.
pub struct QueryParIter<'w, 's, D: QueryData, F: QueryFilter> {
    /// The query.
    pub query: UnsafeQuery<'w, 's, D, F>,
    /// How the items are divided.
    pub batching_strategy: BatchingStrategy,
}

/// The items of a query for a list of entities, to be gone through by several threads.
pub struct QueryParManyIter<'w, 's, D: QueryData, F: QueryFilter> {
    /// The query.
    pub query: UnsafeQuery<'w, 's, D, F>,
    /// The entities.
    pub entity_list: Vec<Entity>,
    /// How the items are divided.
    pub batching_strategy: BatchingStrategy,
}

/// Returns a copy of a list of entities.
fn copy_entities(entities: &Vec<Entity>) -> (copy: Vec<Entity>)
    ensures
        copy@ == entities@,
{
    let mut copy: Vec<Entity> = Vec::new();
    let mut i: usize = 0;
    while i < entities.len()
        invariant
            i <= entities@.len(),
            copy@ == entities@.take(i as int),
        decreases entities@.len() - i,
    {
        copy.push(entities[i]);
        i = i + 1;
    }
    copy
}

impl<'w, 's, D: QueryData, F: QueryFilter> UnsafeQuery<'w, 's, D, F> {
    /// What the query has for some entities, those that it does not match left out.
    pub open(crate) spec fn found_many(self, entities: Seq<Entity>) -> Seq<D::Item>
        decreases entities.len(),
    {
        if entities.len() == 0 {
            Seq::empty()
        } else {
            match self.found(entities.last()) {
                Ok(item) => self.found_many(entities.drop_last()).push(item),
                Err(_) => self.found_many(entities.drop_last()),
            }
        }
    }

    /// Returns what is fetched for some entities, in their order. Those that the query
    /// does not match are left out.
    pub fn iter_many(&self, entities: &Vec<Entity>) -> (items: Vec<D::Item>)
        requires
            self.wf(),
        ensures
            items@ == self.found_many(entities@),
    {
        let mut items: Vec<D::Item> = Vec::new();
        let mut i: usize = 0;
        while i < entities.len()
            invariant
                self.wf(),
                i <= entities@.len(),
                items@ == self.found_many(entities@.take(i as int)),
            decreases entities@.len() - i,
        {
            proof {
                assert(entities@.take(i + 1).drop_last() =~= entities@.take(i as int));
            }
            match self.get(entities[i]) {
                Ok(item) => {
                    items.push(item);
                },
                Err(_) => {},
            }
            i = i + 1;
        }
        assert(entities@.take(i as int) =~= entities@);
        items
    }

    /// Returns what is fetched for some entities that are given only once, in their order.
    /// Those that the query does not match are left out.
    pub fn iter_many_unique(&self, entities: &Vec<Entity>) -> (items: Vec<D::Item>)
        requires
            self.wf(),
            entities@.no_duplicates(),
        ensures
            items@ == self.found_many(entities@),
    {
        self.iter_many(entities)
    }

    /// Returns the items of the query, to be gone through by several threads.
    pub fn par_iter(&self) -> (items: QueryParIter<'w, 's, D, F>)
        ensures
            items.query == *self,
            items.batching_strategy == BatchingStrategy::new(),
    {
        QueryParIter { query: *self, batching_strategy: BatchingStrategy::new() }
    }

    /// Returns the items of the query for some entities, to be gone through by several
    /// threads.
    pub fn par_iter_many(&self, entities: &Vec<Entity>) -> (items: QueryParManyIter<'w, 's, D, F>)
        ensures
            items.query == *self,
            items.entity_list@ == entities@,
            items.batching_strategy == BatchingStrategy::new(),
    {
        QueryParManyIter {
            query: *self,
            entity_list: copy_entities(entities),
            batching_strategy: BatchingStrategy::new(),
        }
    }

    /// Returns the items of the query for some entities that are given only once, to be
    /// gone through by several threads.
    pub fn par_iter_many_unique(&self, entities: &Vec<Entity>) -> (items: QueryParManyIter<
        'w,
        's,
        D,
        F,
    >)
        requires
            entities@.no_duplicates(),
        ensures
            items.query == *self,
            items.entity_list@ == entities@,
            items.batching_strategy == BatchingStrategy::new(),
    {
        self.par_iter_many(entities)
    }

    /// Returns the rows that the query matches.
    fn matched_rows(&self) -> (rows: Vec<(ArchetypeId, TableRow)>)
        requires
            self.wf(),
        ensures
            rows@.len() == self.rows().len(),
            forall|k: int|
                0 <= k < rows@.len() ==> (((#[trigger] rows@[k]).0.0 as int, rows@[k].1.0 as int)
                    == self.rows()[k]) && self.state.has_matched(rows@[k].0) && rows@[k].1.0
                    < self.world.table(rows@[k].0.0 as int).entities@.len(),
    {
        let mut rows: Vec<(ArchetypeId, TableRow)> = Vec::new();
        let mut n: usize = 0;
        let ids = &self.state.matched_ids;
        assert(self.rows_in(ids@.take(0)) =~= Seq::empty());
        while n < ids.len()
            invariant
                self.wf(),
                n <= ids@.len(),
                *ids == self.state.matched_ids,
                rows@.len() == self.rows_in(ids@.take(n as int)).len(),
                forall|k: int|
                    0 <= k < rows@.len() ==> (((#[trigger] rows@[k]).0.0 as int, rows@[k].1.0
                        as int) == self.rows_in(ids@.take(n as int))[k]) && self.state.has_matched(
                        rows@[k].0,
                    ) && rows@[k].1.0 < self.world.table(rows@[k].0.0 as int).entities@.len(),
            decreases ids@.len() - n,
        {
            let id = ids[n];
            proof {
                assert(self.state.has_matched(id));
                assert(ids@.take(n + 1).drop_last() =~= ids@.take(n as int));
            }
            let ghost i = id.0 as int;
            let ghost before = rows@;
            let archetype = &self.world.archetypes.archetypes[id.index()];
            let table = &self.world.tables.tables[id.index()];
            assert(*archetype == self.world.archetype(i));
            assert(*table == self.world.table(i));
            let filter = F::set_archetype(&self.state.filter_state, archetype, table, self.ticks);
            let mut row: usize = 0;
            while row < table.entities.len()
                invariant
                    self.wf(),
                    i == id.0,
                    self.state.has_matched(id),
                    0 <= i < self.world.tables.tables@.len(),
                    *archetype == self.world.archetype(i),
                    *table == self.world.table(i),
                    filter == F::fetch_of(self.state.filter_state, *archetype, *table, self.ticks),
                    row <= table.entities@.len(),
                    rows@.len() == before.len() + self.kept_rows(i, row as int).len(),
                    forall|k: int| 0 <= k < before.len() ==> #[trigger] rows@[k] == before[k],
                    forall|k: int|
                        before.len() <= k < rows@.len() ==> (((#[trigger] rows@[k]).0.0 as int,
                        rows@[k].1.0 as int) == self.kept_rows(i, row as int)[k - before.len()])
                            && rows@[k].0 == id && rows@[k].1.0 < table.entities@.len(),
                decreases table.entities@.len() - row,
            {
                let place = Place {
                    archetype,
                    table,
                    entity: table.entities[row],
                    row: TableRow(row as u32),
                };
                assert(place == crate::query::unsafe_query::place_at(self.world, i, row as int));
                if F::filter_fetch(&self.state.filter_state, &filter, place, self.ticks) {
                    rows.push((id, TableRow(row as u32)));
                }
                row = row + 1;
            }
            n = n + 1;
        }
        assert(ids@.take(n as int) =~= ids@);
        rows
    }

    /// Returns what is fetched for the entity in a row.
    fn fetch_row(&self, id: ArchetypeId, row: TableRow) -> (item: D::Item)
        requires
            self.wf(),
            self.state.has_matched(id),
            row.0 < self.world.table(id.0 as int).entities@.len(),
        ensures
            item == self.item_at(id.0 as int, row.0 as int),
    {
        let ghost i = id.0 as int;
        let archetype = &self.world.archetypes.archetypes[id.index()];
        let table = &self.world.tables.tables[id.index()];
        assert(*archetype == self.world.archetype(i));
        assert(*table == self.world.table(i));
        let fetch = D::set_archetype(&self.state.fetch_state, archetype, table, self.ticks);
        let place = Place { archetype, table, entity: table.entities[row.0 as usize], row };
        assert(place == crate::query::unsafe_query::place_at(self.world, i, row.0 as int));
        D::fetch(&self.state.fetch_state, &fetch, place, self.ticks)
    }

    /// The item of the query with the given position.
    pub open spec fn item_number(self, position: int) -> D::Item {
        self.item_at(self.rows()[position].0, self.rows()[position].1)
    }

    /// Returns all combinations of `K` items of the query, without repetition.
    pub fn iter_combinations<const K: usize>(&self) -> (combinations: Vec<Vec<D::Item>>)
        requires
            self.wf(),
        ensures
            ({
                let choices = crate::query::combinations::combinations(
                    self.items().len(),
                    K as nat,
                );
                &&& combinations@.len() == choices.len()
                &&& forall|c: int|
                    0 <= c < choices.len() ==> (#[trigger] combinations@[c])@
                        == choices[c].map_values(|position: int| self.item_number(position))
            }),
    {
        let rows = self.matched_rows();
        let choices = choose_positions(rows.len(), K);
        let ghost all = crate::query::combinations::combinations(rows@.len(), K as nat);
        proof {
            crate::query::combinations::combinations_are_choices(rows@.len(), K as nat);
        }
        let ghost item = |position: int| self.item_number(position);
        let mut combinations: Vec<Vec<D::Item>> = Vec::new();
        let mut c: usize = 0;
        while c < choices.len()
            invariant
                self.wf(),
                item == |position: int| self.item_number(position),
                rows@.len() == self.rows().len(),
                forall|k: int|
                    0 <= k < rows@.len() ==> (((#[trigger] rows@[k]).0.0 as int, rows@[k].1.0
                        as int) == self.rows()[k]) && self.state.has_matched(rows@[k].0)
                        && rows@[k].1.0 < self.world.table(rows@[k].0.0 as int).entities@.len(),
                all == crate::query::combinations::combinations(rows@.len(), K as nat),
                forall|chosen: Seq<int>|
                    all.contains(chosen) <==> #[trigger] crate::query::combinations::is_choice(
                        chosen,
                        rows@.len(),
                        K as nat,
                    ),
                choices@.len() == all.len(),
                forall|i: int|
                    0 <= i < choices@.len() ==> crate::query::combinations::as_ints(
                        (#[trigger] choices@[i])@,
                    ) == all[i],
                c <= choices@.len(),
                combinations@.len() == c,
                forall|i: int|
                    0 <= i < c ==> (#[trigger] combinations@[i])@ == all[i].map_values(item),
            decreases choices@.len() - c,
        {
            let chosen = &choices[c];
            proof {
                assert(crate::query::combinations::as_ints(chosen@) == all[c as int]);
                assert(all.contains(all[c as int]));
                assert(crate::query::combinations::is_choice(
                    all[c as int],
                    rows@.len(),
                    K as nat,
                ));
            }
            let mut items: Vec<D::Item> = Vec::new();
            let mut j: usize = 0;
            while j < chosen.len()
                invariant
                    self.wf(),
                    item == |position: int| self.item_number(position),
                    rows@.len() == self.rows().len(),
                    forall|k: int|
                        0 <= k < rows@.len() ==> (((#[trigger] rows@[k]).0.0 as int, rows@[k].1.0
                            as int) == self.rows()[k]) && self.state.has_matched(rows@[k].0)
                            && rows@[k].1.0 < self.world.table(
                            rows@[k].0.0 as int,
                        ).entities@.len(),
                    crate::query::combinations::as_ints(chosen@) == all[c as int],
                    crate::query::combinations::is_choice(all[c as int], rows@.len(), K as nat),
                    j <= chosen@.len(),
                    items@ == all[c as int].take(j as int).map_values(item),
                decreases chosen@.len() - j,
            {
                let position: usize = chosen[j];
                proof {
                    let ints = crate::query::combinations::as_ints(chosen@);
                    assert(ints[j as int] == position);
                    assert(0 <= all[c as int][j as int] < rows@.len());
                    assert(all[c as int].take(j + 1) =~= all[c as int].take(j as int).push(
                        position as int,
                    ));
                    assert(all[c as int].take(j + 1).map_values(item) =~= all[c as int].take(
                        j as int,
                    ).map_values(item).push(item(position as int)));
                }
                items.push(self.fetch_row(rows[position].0, rows[position].1));
                j = j + 1;
            }
            assert(all[c as int].take(j as int) =~= all[c as int]);
            combinations.push(items);
            c = c + 1;
        }
        combinations
    }
}

} // verus!
