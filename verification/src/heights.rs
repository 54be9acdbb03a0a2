//! How deeply values nest.
//!
//! The reduction descends from its observations into the objects and the
//! arrays among them. The heights here get smaller on that way, which is why
//! the reduction ends.

use vstd::prelude::*;
use crate::membership::{
    lemma_all_members_contains, lemma_array_elements_contains, lemma_has_array_contains,
    lemma_object_shapes_contains, lemma_values_named_contains, some_shape_holds,
};
use crate::model::{
    all_members, array_elements, has_array, max_nat, object_shapes, values_named, Member, RawValue,
    Shape,
};
use crate::runs::{fingerprints, key_runs, lemma_runs_source};
use crate::text::Text;

verus! {

/// How deeply objects and arrays nest inside `value`.
pub open spec fn value_height(value: RawValue) -> nat
    decreases value,
{
    match value {
        RawValue::Object(members) => 1 + shape_height(members),
        RawValue::Array(items) => 1 + values_height(items),
        _ => 0,
    }
}

/// The greatest height among the values of `members`.
pub open spec fn shape_height(members: Seq<Member>) -> nat
    decreases members,
{
    if members.len() == 0 {
        0
    } else {
        max_nat(shape_height(members.drop_last()), value_height(members.last().value))
    }
}

/// The greatest height among `values`.
pub open spec fn values_height(values: Seq<RawValue>) -> nat
    decreases values,
{
    if values.len() == 0 {
        0
    } else {
        max_nat(values_height(values.drop_last()), value_height(values.last()))
    }
}

/// The greatest height among the members of all `groups`.
pub open spec fn groups_height(groups: Seq<Seq<Shape>>) -> nat
    decreases groups.len(),
{
    if groups.len() == 0 {
        0
    } else {
        max_nat(groups_height(groups.drop_last()), shape_height(all_members(groups.last())))
    }
}

/// Every value of a sequence is at most as high as the sequence.
pub proof fn lemma_values_height_index(values: Seq<RawValue>, i: int)
    requires
        0 <= i < values.len(),
    ensures
        value_height(values[i]) <= values_height(values),
    decreases values.len(),
{
    if i < values.len() - 1 {
        lemma_values_height_index(values.drop_last(), i);
    }
}

/// A bound on every value bounds the sequence.
pub proof fn lemma_values_height_bound(values: Seq<RawValue>, bound: nat)
    requires
        forall|i: int| 0 <= i < values.len() ==> value_height(#[trigger] values[i]) <= bound,
    ensures
        values_height(values) <= bound,
    decreases values.len(),
{
    if values.len() > 0 {
        let front = values.drop_last();
        assert forall|i: int| 0 <= i < front.len() implies value_height(#[trigger] front[i])
            <= bound by {
            assert(front[i] == values[i]);
        }
        lemma_values_height_bound(front, bound);
    }
}

/// Every member's value is at most as high as the members.
pub proof fn lemma_shape_height_index(members: Seq<Member>, i: int)
    requires
        0 <= i < members.len(),
    ensures
        value_height(members[i].value) <= shape_height(members),
    decreases members.len(),
{
    if i < members.len() - 1 {
        lemma_shape_height_index(members.drop_last(), i);
    }
}

/// A bound on every member's value bounds the members.
pub proof fn lemma_shape_height_bound(members: Seq<Member>, bound: nat)
    requires
        forall|i: int|
            0 <= i < members.len() ==> value_height((#[trigger] members[i]).value) <= bound,
    ensures
        shape_height(members) <= bound,
    decreases members.len(),
{
    if members.len() > 0 {
        let front = members.drop_last();
        assert forall|i: int| 0 <= i < front.len() implies value_height(
            (#[trigger] front[i]).value,
        ) <= bound by {
            assert(front[i] == members[i]);
        }
        lemma_shape_height_bound(front, bound);
    }
}

/// A value that a sequence holds is at most as high as the sequence.
pub proof fn lemma_values_height_contains(values: Seq<RawValue>, value: RawValue)
    requires
        values.contains(value),
    ensures
        value_height(value) <= values_height(values),
{
    let i = choose|i: int| 0 <= i < values.len() && values[i] == value;
    lemma_values_height_index(values, i);
}

/// The value of a member that is among others is at most as high as those.
pub proof fn lemma_shape_height_contains(members: Seq<Member>, member: Member)
    requires
        members.contains(member),
    ensures
        value_height(member.value) <= shape_height(members),
{
    let i = choose|i: int| 0 <= i < members.len() && members[i] == member;
    lemma_shape_height_index(members, i);
}

/// The observations of a field are no higher than the members.
pub proof fn lemma_values_named_height(members: Seq<Member>, field: Text)
    ensures
        values_height(values_named(members, field)) <= shape_height(members),
{
    let values = values_named(members, field);
    assert forall|i: int| 0 <= i < values.len() implies value_height(#[trigger] values[i])
        <= shape_height(members) by {
        assert(values.contains(values[i]));
        lemma_values_named_contains(members, field, values[i]);
        lemma_shape_height_contains(members, Member { name: field, value: values[i] });
    }
    lemma_values_height_bound(values, shape_height(members));
}

/// The members of the objects among `values` lie strictly below `values`.
pub proof fn lemma_object_shapes_below(values: Seq<RawValue>)
    requires
        object_shapes(values).len() > 0,
    ensures
        shape_height(all_members(object_shapes(values))) < values_height(values),
{
    let shapes = object_shapes(values);
    let members = all_members(shapes);
    assert(shapes.contains(shapes[0]));
    lemma_object_shapes_contains(values, shapes[0]);
    lemma_values_height_contains(values, RawValue::Object(shapes[0]));
    let bound = (values_height(values) - 1) as nat;
    assert forall|i: int| 0 <= i < members.len() implies value_height(
        (#[trigger] members[i]).value,
    ) <= bound by {
        assert(members.contains(members[i]));
        lemma_all_members_contains(shapes, members[i]);
        let s = choose|s: int|
            0 <= s < shapes.len() && (#[trigger] shapes[s]).contains(members[i]);
        lemma_shape_height_contains(shapes[s], members[i]);
        assert(shapes.contains(shapes[s]));
        lemma_object_shapes_contains(values, shapes[s]);
        lemma_values_height_contains(values, RawValue::Object(shapes[s]));
    }
    lemma_shape_height_bound(members, bound);
}

/// The elements of the arrays among `values` lie strictly below `values`.
pub proof fn lemma_array_elements_height(values: Seq<RawValue>)
    requires
        has_array(values),
    ensures
        values_height(array_elements(values)) < values_height(values),
{
    let elements = array_elements(values);
    lemma_has_array_contains(values);
    let first = choose|j: int| 0 <= j < values.len() && (#[trigger] values[j]) is Array;
    lemma_values_height_index(values, first);
    let bound = (values_height(values) - 1) as nat;
    assert forall|i: int| 0 <= i < elements.len() implies value_height(#[trigger] elements[i])
        <= bound by {
        assert(elements.contains(elements[i]));
        lemma_array_elements_contains(values, elements[i]);
        let j = choose|j: int|
            0 <= j < values.len() && (#[trigger] values[j]) is Array
                && values[j]->Array_0.contains(elements[i]);
        lemma_values_height_index(values, j);
        lemma_values_height_contains(values[j]->Array_0, elements[i]);
    }
    lemma_values_height_bound(elements, bound);
}

/// Shapes taken from among others are no higher than those.
pub proof fn lemma_subset_height(part: Seq<Shape>, whole: Seq<Shape>)
    requires
        forall|i: int| 0 <= i < part.len() ==> whole.contains(#[trigger] part[i]),
    ensures
        shape_height(all_members(part)) <= shape_height(all_members(whole)),
{
    let members = all_members(part);
    assert forall|i: int| 0 <= i < members.len() implies value_height(
        (#[trigger] members[i]).value,
    ) <= shape_height(all_members(whole)) by {
        assert(members.contains(members[i]));
        lemma_all_members_contains(part, members[i]);
        let s = choose|s: int| 0 <= s < part.len() && (#[trigger] part[s]).contains(members[i]);
        assert(whole.contains(part[s]));
        let j = choose|j: int| 0 <= j < whole.len() && whole[j] == part[s];
        assert(whole[j].contains(members[i]));
        assert(some_shape_holds(whole, members[i]));
        lemma_all_members_contains(whole, members[i]);
        lemma_shape_height_contains(all_members(whole), members[i]);
    }
    lemma_shape_height_bound(members, shape_height(all_members(whole)));
}

/// Groups whose shapes all come from `whole` are no higher than `whole`.
pub proof fn lemma_groups_height_bound(groups: Seq<Seq<Shape>>, whole: Seq<Shape>)
    requires
        forall|g: int, i: int|
            0 <= g < groups.len() && 0 <= i < groups[g].len() ==> whole.contains(
                #[trigger] groups[g][i],
            ),
    ensures
        groups_height(groups) <= shape_height(all_members(whole)),
    decreases groups.len(),
{
    if groups.len() > 0 {
        let front = groups.drop_last();
        assert forall|g: int, i: int|
            0 <= g < front.len() && 0 <= i < front[g].len() implies whole.contains(
            #[trigger] front[g][i],
        ) by {
            assert(front[g][i] == groups[g][i]);
        }
        lemma_groups_height_bound(front, whole);
        let last = groups.last();
        assert forall|i: int| 0 <= i < last.len() implies whole.contains(#[trigger] last[i]) by {
            assert(last[i] == groups[groups.len() - 1][i]);
        }
        lemma_subset_height(last, whole);
    }
}

/// The runs of `shapes` are no higher than `shapes`.
pub proof fn lemma_key_runs_height(shapes: Seq<Shape>)
    ensures
        groups_height(key_runs(shapes)) <= shape_height(all_members(shapes)),
{
    let groups = key_runs(shapes);
    assert forall|g: int, i: int|
        0 <= g < groups.len() && 0 <= i < groups[g].len() implies shapes.contains(
        #[trigger] groups[g][i],
    ) by {
        lemma_runs_source(shapes, fingerprints(shapes), g, i);
    }
    lemma_groups_height_bound(groups, shapes);
}

/// Each group is no higher than all groups.
pub proof fn lemma_groups_height_index(groups: Seq<Seq<Shape>>, g: int)
    requires
        0 <= g < groups.len(),
    ensures
        shape_height(all_members(groups[g])) <= groups_height(groups),
    decreases groups.len(),
{
    if g < groups.len() - 1 {
        lemma_groups_height_index(groups.drop_last(), g);
    }
}

} // verus!
