//! Components.

use vstd::prelude::*;

verus! {

/// The id of a component.
#[derive(Clone, Copy, Debug, PartialEq, Eq, Structural, Hash, PartialOrd, Ord)]
pub struct ComponentId(pub usize);

/// Returns whether an id is among some ids.
pub fn contains_id(ids: &Vec<ComponentId>, id: ComponentId) -> (found: bool)
    ensures
        found == ids@.contains(id),
{
    let mut i: usize = 0;
    while i < ids.len()
        invariant
            i <= ids@.len(),
            forall|k: int| 0 <= k < i ==> ids@[k] != id,
        decreases ids@.len() - i,
    {
        if ids[i] == id {
            return true;
        }
        i = i + 1;
    }
    false
}

/// Returns a copy of some ids.
pub fn copy_ids(ids: &Vec<ComponentId>) -> (copy: Vec<ComponentId>)
    ensures
        copy@ == ids@,
{
    let mut copy: Vec<ComponentId> = Vec::new();
    let mut i: usize = 0;
    while i < ids.len()
        invariant
            i <= ids@.len(),
            copy@ == ids@.take(i as int),
        decreases ids@.len() - i,
    {
        copy.push(ids[i]);
        i = i + 1;
    }
    copy
}

/// A component with its value.
#[derive(Clone, Copy, Debug, PartialEq, Eq, Structural)]
pub struct Component {
    /// The id of the component.
    pub id: ComponentId,
    /// The value.
    pub value: u64,
}

/// Whether a component is among some components.
pub open spec fn has_component(components: Seq<Component>, id: ComponentId) -> bool {
    exists|i: int| 0 <= i < components.len() && (#[trigger] components[i]).id == id
}

/// Where a component is among some components.
pub open spec fn position_of(components: Seq<Component>, id: ComponentId) -> int {
    choose|i: int| 0 <= i < components.len() && (#[trigger] components[i]).id == id
}

/// The values of some components.
pub open spec fn values_of(components: Seq<Component>) -> Map<ComponentId, u64> {
    Map::new(
        |id: ComponentId| has_component(components, id),
        |id: ComponentId| components[position_of(components, id)].value,
    )
}

/// Whether no component is given twice.
pub open spec fn distinct_components(components: Seq<Component>) -> bool {
    forall|i: int, j: int|
        0 <= i < j < components.len() ==> (#[trigger] components[i]).id != (
        #[trigger] components[j]).id
}

/// A component that is given once has its value.
pub proof fn value_of_component(components: Seq<Component>, i: int)
    requires
        distinct_components(components),
        0 <= i < components.len(),
    ensures
        values_of(components).contains_key(components[i].id),
        values_of(components)[components[i].id] == components[i].value,
{
    let id = components[i].id;
    assert(has_component(components, id));
    let k = position_of(components, id);
    if k < i {
        assert(components[k].id != components[i].id);
    } else if i < k {
        assert(components[i].id != components[k].id);
    }
}

/// The order of components does not matter for their values.
pub proof fn same_values(one: Seq<Component>, other: Seq<Component>)
    requires
        distinct_components(one),
        distinct_components(other),
        forall|i: int| 0 <= i < one.len() ==> other.contains(#[trigger] one[i]),
        forall|i: int| 0 <= i < other.len() ==> has_component(one, (#[trigger] other[i]).id),
    ensures
        values_of(one) == values_of(other),
{
    assert forall|id: ComponentId| values_of(one).contains_key(id) <==> values_of(
        other,
    ).contains_key(id) by {
        if has_component(one, id) {
            let i = position_of(one, id);
            assert(other.contains(one[i]));
            let j = choose|j: int| 0 <= j < other.len() && other[j] == one[i];
            assert(other[j].id == id);
        }
        if has_component(other, id) {
            let j = position_of(other, id);
            assert(has_component(one, other[j].id));
        }
    }
    assert forall|id: ComponentId| values_of(one).contains_key(id) implies values_of(one)[id]
        == values_of(other)[id] by {
        let i = position_of(one, id);
        assert(other.contains(one[i]));
        let j = choose|j: int| 0 <= j < other.len() && other[j] == one[i];
        value_of_component(other, j);
    }
    assert(values_of(one) =~= values_of(other));
}

/// Returns where a component is among some components.
pub fn find_component(components: &Vec<Component>, id: ComponentId) -> (position: Option<usize>)
    ensures
        position is Some <==> has_component(components@, id),
        position matches Some(i) ==> i < components@.len() && components@[i as int].id == id,
{
    let mut i: usize = 0;
    while i < components.len()
        invariant
            i <= components@.len(),
            forall|k: int| 0 <= k < i ==> (#[trigger] components@[k]).id != id,
        decreases components@.len() - i,
    {
        if components[i].id == id {
            return Some(i);
        }
        i = i + 1;
    }
    None
}

/// Components of which those that are given anew replace the present ones.
pub open spec fn replaced_by(present: Seq<Component>, anew: Seq<Component>) -> Map<
    ComponentId,
    u64,
> {
    values_of(present).union_prefer_right(values_of(anew))
}

/// Returns some components, with those that are given anew in place of the present ones.
pub fn replace_components(present: &Vec<Component>, anew: &Vec<Component>) -> (components: Vec<
    Component,
>)
    requires
        distinct_components(present@),
        distinct_components(anew@),
    ensures
        distinct_components(components@),
        values_of(components@) == replaced_by(present@, anew@),
{
    let mut components: Vec<Component> = Vec::new();
    let mut i: usize = 0;
    while i < present.len()
        invariant
            i <= present@.len(),
            distinct_components(present@),
            distinct_components(components@),
            forall|k: int|
                0 <= k < components@.len() ==> present@.take(i as int).contains(
                    #[trigger] components@[k],
                ) && !has_component(anew@, components@[k].id),
            forall|k: int|
                0 <= k < i && !has_component(anew@, (#[trigger] present@[k]).id)
                    ==> components@.contains(present@[k]),
        decreases present@.len() - i,
    {
        let component = present[i];
        let ghost before = components@;
        let ghost first = present@.take(i as int);
        if find_component(anew, component.id).is_none() {
            components.push(component);
        }
        proof {
            let next = present@.take(i + 1);
            assert forall|k: int| 0 <= k < before.len() implies next.contains(before[k])
                && before[k].id != component.id by {
                let n = choose|n: int| 0 <= n < first.len() && first[n] == before[k];
                assert(next[n] == before[k]);
                assert(present@[n].id != present@[i as int].id);
            }
            assert(next[i as int] == component);
            assert forall|k: int|
                0 <= k < i + 1 && !has_component(
                    anew@,
                    (#[trigger] present@[k]).id,
                ) implies components@.contains(present@[k]) by {
                if k < i {
                    let n = choose|n: int| 0 <= n < before.len() && before[n] == present@[k];
                    assert(components@[n] == present@[k]);
                } else {
                    assert(components@[components@.len() - 1] == component);
                }
            }
        }
        i = i + 1;
    }
    let ghost kept = components@;
    let mut j: usize = 0;
    while j < anew.len()
        invariant
            j <= anew@.len(),
            distinct_components(anew@),
            distinct_components(kept),
            forall|k: int|
                0 <= k < kept.len() ==> !has_component(anew@, (#[trigger] kept[k]).id),
            components@ == kept + anew@.take(j as int),
        decreases anew@.len() - j,
    {
        components.push(anew[j]);
        assert(components@ =~= kept + anew@.take(j + 1));
        j = j + 1;
    }
    assert(components@ =~= kept + anew@);
    proof {
        assert forall|a: int, b: int| 0 <= a < b < components@.len() implies (
        #[trigger] components@[a]).id != (#[trigger] components@[b]).id by {
            if a < kept.len() && b >= kept.len() {
                assert(kept[a] == components@[a]);
                assert(anew@[b - kept.len()] == components@[b]);
            } else if b < kept.len() {
                assert(kept[a].id != kept[b].id);
            } else {
                assert(anew@[a - kept.len()].id != anew@[b - kept.len()].id);
            }
        }
        let union = replaced_by(present@, anew@);
        assert forall|id: ComponentId| values_of(components@).contains_key(id)
            <==> union.contains_key(id) by {
            if has_component(components@, id) {
                let a = position_of(components@, id);
                if a < kept.len() {
                    assert(present@.take(i as int).contains(kept[a]));
                    let n = choose|n: int| 0 <= n < present@.len() && present@[n] == kept[a];
                    assert(has_component(present@, id));
                } else {
                    assert(anew@[a - kept.len()].id == id);
                }
            }
            if has_component(anew@, id) {
                let n = position_of(anew@, id);
                assert(components@[kept.len() + n].id == id);
            } else if has_component(present@, id) {
                let n = position_of(present@, id);
                assert(kept.contains(present@[n]));
                let a = choose|a: int| 0 <= a < kept.len() && kept[a] == present@[n];
                assert(components@[a].id == id);
            }
        }
        assert forall|id: ComponentId| values_of(components@).contains_key(id) implies values_of(
            components@,
        )[id] == union[id] by {
            let a = position_of(components@, id);
            if a < kept.len() {
                assert(present@.take(i as int).contains(kept[a]));
                let n = choose|n: int| 0 <= n < present@.len() && present@[n] == kept[a];
                value_of_component(present@, n);
                assert(!has_component(anew@, id));
            } else {
                value_of_component(anew@, a - kept.len());
            }
        }
        assert(values_of(components@) =~= union);
    }
    components
}

/// There is a value for a component only if the component is given, and it is the one that is given
/// with it.
pub proof fn values_are_given(components: Seq<Component>, id: ComponentId)
    ensures
        values_of(components).contains_key(id) <==> exists|i: int|
            0 <= i < components.len() && (#[trigger] components[i]).id == id,
        values_of(components).contains_key(id) ==> exists|i: int|
            0 <= i < components.len() && (#[trigger] components[i]).id == id
                && components[i].value == values_of(components)[id],
{
    if values_of(components).contains_key(id) {
        let i = position_of(components, id);
        assert(components[i].id == id);
    }
}

/// Components that are given anew have the new values, and the others keep the present ones.
pub proof fn new_values_replace_present_ones(
    present: Seq<Component>,
    anew: Seq<Component>,
    id: ComponentId,
)
    requires
        distinct_components(present),
        distinct_components(anew),
    ensures
        forall|i: int|
            0 <= i < anew.len() && (#[trigger] anew[i]).id == id ==> replaced_by(
                present,
                anew,
            ).contains_pair(id, anew[i].value),
        forall|i: int|
            0 <= i < present.len() && (#[trigger] present[i]).id == id && !has_component(anew, id)
                ==> replaced_by(present, anew).contains_pair(id, present[i].value),
        replaced_by(present, anew).contains_key(id) ==> has_component(present, id)
            || has_component(anew, id),
        has_component(anew, id) <==> exists|i: int|
            0 <= i < anew.len() && (#[trigger] anew[i]).id == id,
{
    assert forall|i: int|
        0 <= i < anew.len() && (#[trigger] anew[i]).id == id implies replaced_by(
        present,
        anew,
    ).contains_pair(id, anew[i].value) by {
        value_of_component(anew, i);
    }
    assert forall|i: int|
        0 <= i < present.len() && (#[trigger] present[i]).id == id && !has_component(
            anew,
            id,
        ) implies replaced_by(present, anew).contains_pair(id, present[i].value) by {
        value_of_component(present, i);
    }
}

} // verus!
