//! What queries and systems read and write.

use std::sync::Arc;
use vstd::prelude::*;

use crate::archetype::Archetype;
use crate::component::{contains_id, copy_ids, ComponentId};
use crate::entity::location::ArchetypeId;

verus! {

/// The components that something reads and writes.
pub struct Access {
    /// The components that are read or written, or, if inverted, those that are not.
    pub reads_and_writes: Vec<ComponentId>,
    /// The components that are written, or, if inverted, those that are not.
    pub writes: Vec<ComponentId>,
    /// Whether `reads_and_writes` is inverted.
    pub reads_and_writes_inverted: bool,
    /// Whether `writes` is inverted.
    pub writes_inverted: bool,
    /// The components of which only the presence in an archetype is looked at.
    pub archetypal: Vec<ComponentId>,
}

impl Access {
    /// Whether a component is read, or read and written.
    pub open spec fn reads(self, id: ComponentId) -> bool {
        self.reads_and_writes@.contains(id) != self.reads_and_writes_inverted
    }

    /// Whether a component is written.
    pub open spec fn modifies(self, id: ComponentId) -> bool {
        self.writes@.contains(id) != self.writes_inverted
    }

    /// Whether the presence of a component is looked at.
    pub open spec fn looks_at(self, id: ComponentId) -> bool {
        self.archetypal@.contains(id)
    }

    /// Whether this reads and writes all that another access reads and writes.
    pub open spec fn includes(self, other: Access) -> bool {
        forall|id: ComponentId|
            (#[trigger] other.reads(id) ==> self.reads(id)) && (other.modifies(id)
                ==> self.modifies(id))
    }

    /// Whether this reads, writes and looks at what one of two accesses does.
    pub open spec fn joins(self, one: Access, other: Access) -> bool {
        forall|id: ComponentId|
            {
                &&& #[trigger] self.reads(id) == (one.reads(id) || other.reads(id))
                &&& self.modifies(id) == (one.modifies(id) || other.modifies(id))
                &&& self.looks_at(id) == (one.looks_at(id) || other.looks_at(id))
            }
    }

    /// Creates an access to nothing.
    pub fn new() -> (access: Self)
        ensures
            forall|id: ComponentId|
                !(#[trigger] access.reads(id)) && !access.modifies(id) && !access.looks_at(id),
            access.is_new(),
    {
        Access {
            reads_and_writes: Vec::new(),
            writes: Vec::new(),
            reads_and_writes_inverted: false,
            writes_inverted: false,
            archetypal: Vec::new(),
        }
    }

    /// Whether this is an access to nothing.
    pub open spec fn is_new(self) -> bool {
        &&& self.reads_and_writes@.len() == 0
        &&& self.writes@.len() == 0
        &&& !self.reads_and_writes_inverted
        &&& !self.writes_inverted
        &&& self.archetypal@.len() == 0
    }

    /// Adds a component that is read.
    pub fn add_component_read(&mut self, id: ComponentId)
        requires
            !old(self).reads_and_writes_inverted,
        ensures
            final(self).reads_and_writes@ == old(self).reads_and_writes@.push(id),
            *final(self) == (Access {
                reads_and_writes: final(self).reads_and_writes,
                ..*old(self)
            }),
    {
        self.reads_and_writes.push(id);
    }

    /// Adds a component that is written.
    pub fn add_component_write(&mut self, id: ComponentId)
        requires
            !old(self).reads_and_writes_inverted,
            !old(self).writes_inverted,
        ensures
            final(self).reads_and_writes@ == old(self).reads_and_writes@.push(id),
            final(self).writes@ == old(self).writes@.push(id),
            *final(self) == (Access {
                reads_and_writes: final(self).reads_and_writes,
                writes: final(self).writes,
                ..*old(self)
            }),
    {
        self.reads_and_writes.push(id);
        self.writes.push(id);
    }

    /// Adds a component whose presence is looked at.
    pub fn add_archetypal(&mut self, id: ComponentId)
        ensures
            final(self).archetypal@ == old(self).archetypal@.push(id),
            *final(self) == (Access { archetypal: final(self).archetypal, ..*old(self) }),
    {
        self.archetypal.push(id);
    }

    /// Adds all that another access reads, writes and looks at.
    pub fn extend(&mut self, other: &Access)
        ensures
            final(self).joins(*old(self), *other),
    {
        let (reads_and_writes, reads_and_writes_inverted) = union_ids(
            &self.reads_and_writes,
            self.reads_and_writes_inverted,
            &other.reads_and_writes,
            other.reads_and_writes_inverted,
        );
        let (writes, writes_inverted) = union_ids(
            &self.writes,
            self.writes_inverted,
            &other.writes,
            other.writes_inverted,
        );
        let (archetypal, _) = union_ids(&self.archetypal, false, &other.archetypal, false);
        *self = Access {
            reads_and_writes,
            writes,
            reads_and_writes_inverted,
            writes_inverted,
            archetypal,
        };
    }

    /// Returns whether a component is read.
    pub fn has_component_read(&self, id: ComponentId) -> (reads: bool)
        ensures
            reads == self.reads(id),
    {
        contains_id(&self.reads_and_writes, id) != self.reads_and_writes_inverted
    }

    /// Returns whether a component is written.
    pub fn has_component_write(&self, id: ComponentId) -> (modifies: bool)
        ensures
            modifies == self.modifies(id),
    {
        contains_id(&self.writes, id) != self.writes_inverted
    }

    /// Returns whether the presence of a component is looked at.
    pub fn has_archetypal(&self, id: ComponentId) -> (looks_at: bool)
        ensures
            looks_at == self.looks_at(id),
    {
        contains_id(&self.archetypal, id)
    }
}

/// Returns those of some ids that are, or are not, among others.
fn select_ids(ids: &Vec<ComponentId>, others: &Vec<ComponentId>, among: bool) -> (selected: Vec<
    ComponentId,
>)
    ensures
        forall|id: ComponentId| #[trigger]
            selected@.contains(id) == (ids@.contains(id) && others@.contains(id) == among),
{
    let mut selected: Vec<ComponentId> = Vec::new();
    let mut i: usize = 0;
    while i < ids.len()
        invariant
            i <= ids@.len(),
            forall|id: ComponentId| #[trigger]
                selected@.contains(id) == (ids@.take(i as int).contains(id) && others@.contains(id)
                    == among),
        decreases ids@.len() - i,
    {
        let id = ids[i];
        let ghost before = selected@;
        if contains_id(others, id) == among {
            selected.push(id);
        }
        proof {
            assert(ids@.take(i + 1) =~= ids@.take(i as int).push(id));
            assert forall|other: ComponentId| #[trigger]
                selected@.contains(other) == (ids@.take(i + 1).contains(other) && others@.contains(
                    other,
                ) == among) by {
                push_contains(ids@.take(i as int), id, other);
                push_contains(before, id, other);
            }
        }
        i = i + 1;
    }
    assert(ids@.take(i as int) =~= ids@);
    selected
}

proof fn push_contains(ids: Seq<ComponentId>, id: ComponentId, other: ComponentId)
    ensures
        ids.push(id).contains(other) == (ids.contains(other) || other == id),
{
    let pushed = ids.push(id);
    if ids.contains(other) {
        let i = choose|i: int| 0 <= i < ids.len() && ids[i] == other;
        assert(pushed[i] == other);
    }
    if other == id {
        assert(pushed[ids.len() as int] == other);
    }
    if pushed.contains(other) && other != id {
        let i = choose|i: int| 0 <= i < pushed.len() && pushed[i] == other;
        assert(ids[i] == other);
    }
}

proof fn concat_contains(a: Seq<ComponentId>, b: Seq<ComponentId>, other: ComponentId)
    ensures
        (a + b).contains(other) == (a.contains(other) || b.contains(other)),
{
    let all = a + b;
    if a.contains(other) {
        let i = choose|i: int| 0 <= i < a.len() && a[i] == other;
        assert(all[i] == other);
    }
    if b.contains(other) {
        let i = choose|i: int| 0 <= i < b.len() && b[i] == other;
        assert(all[a.len() + i] == other);
    }
    if all.contains(other) {
        let i = choose|i: int| 0 <= i < all.len() && all[i] == other;
        if i < a.len() {
            assert(a[i] == other);
        } else {
            assert(b[i - a.len()] == other);
        }
    }
}

/// Returns the union of two sets of ids, each of them given by its members or, if
/// inverted, by those that are not its members.
fn union_ids(
    a: &Vec<ComponentId>,
    a_inverted: bool,
    b: &Vec<ComponentId>,
    b_inverted: bool,
) -> (union: (Vec<ComponentId>, bool))
    ensures
        forall|id: ComponentId| #[trigger]
            union.0@.contains(id) == (((a@.contains(id) != a_inverted) || (b@.contains(id)
                != b_inverted)) != union.1),
        union.1 == (a_inverted || b_inverted),
{
    if a_inverted && b_inverted {
        (select_ids(a, b, true), true)
    } else if a_inverted {
        (select_ids(a, b, false), true)
    } else if b_inverted {
        (select_ids(b, a, false), true)
    } else {
        let mut union = copy_ids(a);
        let mut rest = copy_ids(b);
        union.append(&mut rest);
        assert forall|id: ComponentId| #[trigger] union@.contains(id) == (a@.contains(id)
            || b@.contains(id)) by {
            concat_contains(a@, b@, id);
        }
        (union, false)
    }
}

/// The components that an archetype must have and must not have.
pub struct AccessFilters {
    /// The components that an archetype must have.
    pub with: Vec<ComponentId>,
    /// The components that an archetype must not have.
    pub without: Vec<ComponentId>,
}

impl AccessFilters {
    /// Whether a set of components has those that it must have, and none that it must not
    /// have.
    pub open spec fn admits(self, components: Seq<ComponentId>) -> bool {
        &&& forall|i: int|
            0 <= i < self.with@.len() ==> components.contains(#[trigger] self.with@[i])
        &&& forall|i: int|
            0 <= i < self.without@.len() ==> !components.contains(#[trigger] self.without@[i])
    }

    /// Returns whether a set of components passes.
    pub fn matches(&self, components: &Vec<ComponentId>) -> (matches: bool)
        ensures
            matches == self.admits(components@),
    {
        let mut i: usize = 0;
        while i < self.with.len()
            invariant
                i <= self.with@.len(),
                forall|k: int| 0 <= k < i ==> components@.contains(#[trigger] self.with@[k]),
            decreases self.with@.len() - i,
        {
            if !contains_id(components, self.with[i]) {
                return false;
            }
            i = i + 1;
        }
        let mut j: usize = 0;
        while j < self.without.len()
            invariant
                j <= self.without@.len(),
                forall|k: int| 0 <= k < j ==> !components@.contains(#[trigger] self.without@[k]),
            decreases self.without@.len() - j,
        {
            if contains_id(components, self.without[j]) {
                return false;
            }
            j = j + 1;
        }
        true
    }
}

/// An access together with the archetypes that it is restricted to.
pub struct FilteredAccess {
    /// The access.
    pub access: Access,
    /// The filters, of which an archetype has to pass one.
    pub filter_sets: Vec<AccessFilters>,
}

impl FilteredAccess {
    /// Whether a set of components passes one of the filters.
    pub open spec fn admits(self, components: Seq<ComponentId>) -> bool {
        exists|i: int|
            0 <= i < self.filter_sets@.len() && (#[trigger] self.filter_sets@[i]).admits(
                components,
            )
    }

    /// Returns whether a set of components passes one of the filters.
    pub fn matches_component_set(&self, components: &Vec<ComponentId>) -> (matches: bool)
        ensures
            matches == self.admits(components@),
    {
        let mut i: usize = 0;
        while i < self.filter_sets.len()
            invariant
                i <= self.filter_sets@.len(),
                forall|k: int|
                    0 <= k < i ==> !(#[trigger] self.filter_sets@[k]).admits(components@),
            decreases self.filter_sets@.len() - i,
        {
            if self.filter_sets[i].matches(components) {
                return true;
            }
            i = i + 1;
        }
        false
    }
}

/// What the parts of a system access.
pub struct FilteredAccessSet {
    /// What all parts together access.
    pub combined_access: Access,
    /// What each part accesses.
    pub filtered_accesses: Vec<Arc<FilteredAccess>>,
    /// The resources that are read.
    pub resource_reads: Vec<ComponentId>,
}

impl FilteredAccessSet {
    /// Creates an access of nothing.
    pub fn new() -> (set: Self)
        ensures
            set.combined_access.is_new(),
            set.filtered_accesses@.len() == 0,
            set.resource_reads@.len() == 0,
    {
        FilteredAccessSet {
            combined_access: Access::new(),
            filtered_accesses: Vec::new(),
            resource_reads: Vec::new(),
        }
    }

    /// Returns what all parts together access.
    pub fn combined_access(&self) -> (access: &Access)
        ensures
            *access == self.combined_access,
    {
        &self.combined_access
    }

    /// Adds what a part accesses.
    pub fn add_part(&mut self, access: Arc<FilteredAccess>)
        ensures
            final(self).filtered_accesses@ == old(self).filtered_accesses@.push(access),
            final(self).resource_reads == old(self).resource_reads,
            final(self).combined_access.joins(old(self).combined_access, access.access),
    {
        self.combined_access.extend(&access.access);
        self.filtered_accesses.push(access);
    }

    /// Adds a resource that is read.
    pub fn add_resource_read(&mut self, id: ComponentId)
        ensures
            final(self).resource_reads@ == old(self).resource_reads@.push(id),
            final(self).combined_access == old(self).combined_access,
            final(self).filtered_accesses == old(self).filtered_accesses,
    {
        self.resource_reads.push(id);
    }
}

/// A component of the entities of one archetype.
#[derive(Clone, Copy, Debug, PartialEq, Eq, Structural)]
pub struct ArchetypeComponentId {
    /// The archetype.
    pub archetype: ArchetypeId,
    /// The component.
    pub component: ComponentId,
}

/// The components of single archetypes that something reads and writes.
pub struct ArchetypeComponentAccess {
    /// The components that are read or written.
    pub reads_and_writes: Vec<ArchetypeComponentId>,
    /// The components that are written.
    pub writes: Vec<ArchetypeComponentId>,
}

/// The components of an archetype, of the first `end`, for which something holds.
pub open spec fn archetype_components(
    archetype: Archetype,
    holds: spec_fn(ComponentId) -> bool,
    end: int,
) -> Seq<ArchetypeComponentId>
    decreases end,
{
    if end <= 0 {
        Seq::empty()
    } else {
        let component = archetype.components@[end - 1];
        let before = archetype_components(archetype, holds, end - 1);
        if holds(component) {
            before.push(ArchetypeComponentId { archetype: archetype.id, component })
        } else {
            before
        }
    }
}

impl ArchetypeComponentAccess {
    /// Creates an access of nothing.
    pub fn new() -> (access: Self)
        ensures
            access.reads_and_writes@.len() == 0,
            access.writes@.len() == 0,
    {
        ArchetypeComponentAccess { reads_and_writes: Vec::new(), writes: Vec::new() }
    }

    /// Adds the components of an archetype that something reads and writes.
    pub fn add_archetype(&mut self, archetype: &Archetype, access: &Access)
        ensures
            final(self).reads_and_writes@ == old(self).reads_and_writes@ + archetype_components(
                *archetype,
                |id: ComponentId| access.reads(id),
                archetype.components@.len() as int,
            ),
            final(self).writes@ == old(self).writes@ + archetype_components(
                *archetype,
                |id: ComponentId| access.modifies(id),
                archetype.components@.len() as int,
            ),
    {
        let mut i: usize = 0;
        let ghost read = |id: ComponentId| access.reads(id);
        let ghost written = |id: ComponentId| access.modifies(id);
        while i < archetype.components.len()
            invariant
                i <= archetype.components@.len(),
                read == |id: ComponentId| access.reads(id),
                written == |id: ComponentId| access.modifies(id),
                self.reads_and_writes@ == old(self).reads_and_writes@ + archetype_components(
                    *archetype,
                    read,
                    i as int,
                ),
                self.writes@ == old(self).writes@ + archetype_components(
                    *archetype,
                    written,
                    i as int,
                ),
            decreases archetype.components@.len() - i,
        {
            let component = archetype.components[i];
            let id = ArchetypeComponentId { archetype: archetype.id, component };
            if access.has_component_read(component) {
                self.reads_and_writes.push(id);
            }
            if access.has_component_write(component) {
                self.writes.push(id);
            }
            i = i + 1;
        }
    }
}

/// An access reads the components that it lists as read, unless that list is inverted. Then it
/// reads all others. The same holds of those that it writes. It looks at those that it lists.
pub proof fn access_goes_by_its_lists(access: Access, id: ComponentId)
    ensures
        !access.reads_and_writes_inverted ==> (access.reads(id) <==> exists|i: int|
            0 <= i < access.reads_and_writes@.len() && access.reads_and_writes@[i] == id),
        access.reads_and_writes_inverted ==> (access.reads(id) <==> forall|i: int|
            0 <= i < access.reads_and_writes@.len() ==> access.reads_and_writes@[i] != id),
        !access.writes_inverted ==> (access.modifies(id) <==> exists|i: int|
            0 <= i < access.writes@.len() && access.writes@[i] == id),
        access.writes_inverted ==> (access.modifies(id) <==> forall|i: int|
            0 <= i < access.writes@.len() ==> access.writes@[i] != id),
        access.looks_at(id) <==> exists|i: int|
            0 <= i < access.archetypal@.len() && access.archetypal@[i] == id,
{
}

/// Joining two accesses joins, for every component, whether it is read, written and looked at.
pub proof fn joined_access_has_both(joined: Access, one: Access, other: Access, id: ComponentId)
    requires
        joined.joins(one, other),
    ensures
        joined.reads(id) <==> one.reads(id) || other.reads(id),
        joined.modifies(id) <==> one.modifies(id) || other.modifies(id),
        joined.looks_at(id) <==> one.looks_at(id) || other.looks_at(id),
{
    assert(joined.reads(id) == (one.reads(id) || other.reads(id)));
}

/// An access that includes another one reads and writes what the other one does.
pub proof fn including_access_has_the_other(access: Access, other: Access, id: ComponentId)
    requires
        access.includes(other),
    ensures
        other.reads(id) ==> access.reads(id),
        other.modifies(id) ==> access.modifies(id),
{
    assert(other.reads(id) ==> access.reads(id));
}

/// Components pass a filter exactly if all that it demands are there, and none that it excludes.
pub proof fn filter_demands_and_excludes(filter: AccessFilters, components: Seq<ComponentId>)
    ensures
        filter.admits(components) <==> {
            &&& forall|id: ComponentId| #[trigger]
                filter.with@.contains(id) ==> components.contains(id)
            &&& forall|id: ComponentId| #[trigger]
                filter.without@.contains(id) ==> !components.contains(id)
        },
{
    if filter.admits(components) {
        assert forall|id: ComponentId| #[trigger]
            filter.with@.contains(id) implies components.contains(id) by {
            let k = choose|k: int| 0 <= k < filter.with@.len() && filter.with@[k] == id;
            assert(components.contains(filter.with@[k]));
        }
        assert forall|id: ComponentId| #[trigger]
            filter.without@.contains(id) implies !components.contains(id) by {
            let k = choose|k: int| 0 <= k < filter.without@.len() && filter.without@[k] == id;
            assert(!components.contains(filter.without@[k]));
        }
    } else if forall|k: int|
        0 <= k < filter.with@.len() ==> components.contains(#[trigger] filter.with@[k]) {
        let k = choose|k: int|
            0 <= k < filter.without@.len() && components.contains(#[trigger] filter.without@[k]);
        assert(filter.without@.contains(filter.without@[k]));
    } else {
        let k = choose|k: int|
            0 <= k < filter.with@.len() && !components.contains(#[trigger] filter.with@[k]);
        assert(filter.with@.contains(filter.with@[k]));
    }
}

/// Components pass an access with filters if they pass any one of them. They do not pass if they
/// pass none.
pub proof fn one_filter_is_enough(access: FilteredAccess, components: Seq<ComponentId>, i: int)
    requires
        0 <= i < access.filter_sets@.len(),
    ensures
        access.filter_sets@[i].admits(components) ==> access.admits(components),
        (forall|k: int|
            0 <= k < access.filter_sets@.len() ==> !(
            #[trigger] access.filter_sets@[k]).admits(components)) ==> !access.admits(components),
{
}

/// The components of an archetype for which something holds are selected in the order in which the
/// archetype has them.
pub proof fn components_are_selected_in_order(
    archetype: Archetype,
    holds: spec_fn(ComponentId) -> bool,
)
    ensures
        archetype_components(archetype, holds, archetype.components@.len() as int)
            == archetype.components@.filter(holds).map_values(
            |component: ComponentId| ArchetypeComponentId { archetype: archetype.id, component },
        ),
{
    first_components_are_selected(archetype, holds, archetype.components@.len() as int);
    assert(archetype.components@.take(archetype.components@.len() as int)
        =~= archetype.components@);
}

proof fn first_components_are_selected(
    archetype: Archetype,
    holds: spec_fn(ComponentId) -> bool,
    end: int,
)
    requires
        0 <= end <= archetype.components@.len(),
    ensures
        archetype_components(archetype, holds, end) == archetype.components@.take(end).filter(
            holds,
        ).map_values(
            |component: ComponentId| ArchetypeComponentId { archetype: archetype.id, component },
        ),
    decreases end,
{
    reveal(Seq::filter);
    let first = archetype.components@.take(end);
    if end > 0 {
        first_components_are_selected(archetype, holds, end - 1);
        assert(first.drop_last() =~= archetype.components@.take(end - 1));
    }
}

/// A new access reads, writes and looks at nothing.
pub proof fn new_access_is_of_nothing(access: Access, id: ComponentId)
    requires
        access.is_new(),
    ensures
        !access.reads(id),
        !access.modifies(id),
        !access.looks_at(id),
{
}

} // verus!
