//! With merging, the objects of a field are united.

use vstd::prelude::*;
use crate::laws::fields::{has_field, lemma_schema_lookup, types_of};
use crate::laws::run_counts::{
    lemma_object_count_concat, lemma_primitive_entries_hold_no_object, object_count,
};
use crate::model::{
    all_members, has_member, object_shapes, primitive_entries, string_entries, string_lengths,
    values_named, Member, RawValue, Shape, TypeSummary,
};
use crate::reduction::{array_entries, object_entries, reduce, type_list};
use crate::text::Text;

verus! {

/// Those of `shapes` that hold a member named `field`, in their order.
pub open spec fn shapes_with(shapes: Seq<Shape>, field: Text) -> Seq<Shape>
    decreases shapes.len(),
{
    if shapes.len() == 0 {
        Seq::empty()
    } else {
        let rest = shapes_with(shapes.drop_last(), field);
        if has_member(shapes.last(), field) {
            rest.push(shapes.last())
        } else {
            rest
        }
    }
}

/// The observations over two lists of members are those over the first,
/// then those over the second.
pub proof fn lemma_values_named_concat(left: Seq<Member>, right: Seq<Member>, field: Text)
    ensures
        values_named(left + right, field) == values_named(left, field) + values_named(right, field),
    decreases right.len(),
{
    if right.len() == 0 {
        assert(left + right =~= left);
        assert(values_named(left, field) + values_named(right, field) =~= values_named(
            left,
            field,
        ));
    } else {
        assert((left + right).drop_last() =~= left + right.drop_last());
        lemma_values_named_concat(left, right.drop_last(), field);
        let inner = values_named(left, field) + values_named(right.drop_last(), field);
        if right.last().name == field {
            assert(inner.push(right.last().value) =~= values_named(left, field) + values_named(
                right.drop_last(),
                field,
            ).push(right.last().value));
        }
    }
}

/// A shape without a member of a name has no observation under it.
pub proof fn lemma_values_named_without_member(shape: Shape, field: Text)
    requires
        !has_member(shape, field),
    ensures
        values_named(shape, field) == Seq::<RawValue>::empty(),
    decreases shape.len(),
{
    if shape.len() > 0 {
        assert(shape[shape.len() - 1].name != field);
        let front = shape.drop_last();
        assert forall|j: int| 0 <= j < front.len() implies (#[trigger] front[j]).name != field by {
            assert(shape[j] == front[j]);
        }
        lemma_values_named_without_member(shape.drop_last(), field);
    }
}

/// The shapes that do not hold a field add nothing to its observations.
pub proof fn lemma_values_named_shapes_with(shapes: Seq<Shape>, field: Text)
    ensures
        values_named(all_members(shapes_with(shapes, field)), field) == values_named(
            all_members(shapes),
            field,
        ),
    decreases shapes.len(),
{
    if shapes.len() > 0 {
        let front = shapes.drop_last();
        let last = shapes.last();
        lemma_values_named_shapes_with(front, field);
        lemma_values_named_concat(all_members(front), last, field);
        if has_member(last, field) {
            let kept = shapes_with(front, field);
            assert(kept.push(last).drop_last() =~= kept);
            lemma_values_named_concat(all_members(kept), last, field);
        } else {
            lemma_values_named_without_member(last, field);
            assert(values_named(all_members(front), field) + Seq::<RawValue>::empty()
                =~= values_named(all_members(front), field));
        }
    }
}

/// A name occurs among all members where it occurs in one of the shapes.
pub proof fn lemma_all_members_has_member(shapes: Seq<Shape>, field: Text)
    ensures
        has_member(all_members(shapes), field) <==> exists|i: int|
            0 <= i < shapes.len() && has_member(#[trigger] shapes[i], field),
    decreases shapes.len(),
{
    if shapes.len() > 0 {
        let front = shapes.drop_last();
        let last = shapes.last();
        let before = all_members(front);
        let all = all_members(shapes);
        lemma_all_members_has_member(front, field);
        if has_member(all, field) {
            let j = choose|j: int| 0 <= j < all.len() && (#[trigger] all[j]).name == field;
            if j < before.len() {
                assert(before[j] == all[j]);
                let i = choose|i: int|
                    0 <= i < front.len() && has_member(#[trigger] front[i], field);
                assert(shapes[i] == front[i]);
            } else {
                assert(last[j - before.len()] == all[j]);
                assert(has_member(shapes[shapes.len() - 1], field));
            }
        }
        if exists|i: int| 0 <= i < shapes.len() && has_member(#[trigger] shapes[i], field) {
            let i = choose|i: int| 0 <= i < shapes.len() && has_member(#[trigger] shapes[i], field);
            if i < front.len() {
                assert(front[i] == shapes[i]);
                let j = choose|j: int|
                    0 <= j < before.len() && (#[trigger] before[j]).name == field;
                assert(all[j] == before[j]);
            } else {
                let j = choose|j: int| 0 <= j < last.len() && (#[trigger] last[j]).name == field;
                assert(all[before.len() + j] == last[j]);
            }
        }
    }
}

/// A shape that holds the field is among the shapes with that field.
pub proof fn lemma_shapes_with_keeps(shapes: Seq<Shape>, field: Text, i: int)
    requires
        0 <= i < shapes.len(),
        has_member(shapes[i], field),
    ensures
        shapes_with(shapes, field).contains(shapes[i]),
    decreases shapes.len(),
{
    let rest = shapes_with(shapes.drop_last(), field);
    if i < shapes.len() - 1 {
        lemma_shapes_with_keeps(shapes.drop_last(), field, i);
        let k = choose|k: int| 0 <= k < rest.len() && rest[k] == shapes.drop_last()[i];
        assert(shapes_with(shapes, field)[k] == rest[k]);
    } else {
        assert(rest.push(shapes.last())[rest.len() as int] == shapes[i]);
    }
}

/// With merging, the objects observed for a field give exactly one object
/// entry: the schema of all of them together. That schema has the field
/// `field` where one of the objects holds it, and the type list of `field`
/// is then what reducing only the objects that hold it gives for it.
pub proof fn law_merged_objects_union(name: Text, values: Seq<RawValue>, field: Text)
    requires
        object_shapes(values).len() > 0,
    ensures
        object_count(type_list(name, values, true)) == 1,
        object_entries(name, values, true) == seq![
            TypeSummary::Object(reduce(name, object_shapes(values), true)),
        ],
        has_field(reduce(name, object_shapes(values), true), field) <==> exists|i: int|
            0 <= i < object_shapes(values).len() && has_member(
                #[trigger] object_shapes(values)[i],
                field,
            ),
        has_field(reduce(name, object_shapes(values), true), field) ==> has_field(
            reduce(name, shapes_with(object_shapes(values), field), true),
            field,
        ) && types_of(reduce(name, object_shapes(values), true), field) == types_of(
            reduce(name, shapes_with(object_shapes(values), field), true),
            field,
        ),
{
    let shapes = object_shapes(values);
    let nested = reduce(name, shapes, true);
    let strings = string_entries(string_lengths(values));
    let objects = object_entries(name, values, true);
    let primitives = primitive_entries(values);
    let arrays = array_entries(name, values, true);
    lemma_object_count_concat(strings, objects);
    lemma_object_count_concat(strings + objects, primitives);
    lemma_object_count_concat(strings + objects + primitives, arrays);
    lemma_primitive_entries_hold_no_object(values);
    assert(object_count(Seq::<TypeSummary>::empty()) == 0);
    assert(object_count(strings) == 0) by {
        if strings.len() > 0 {
            assert(strings.drop_last() =~= Seq::<TypeSummary>::empty());
        }
    }
    assert(object_count(arrays) == 0) by {
        if arrays.len() > 0 {
            assert(arrays.drop_last() =~= Seq::<TypeSummary>::empty());
        }
    }
    assert(object_count(objects) == 1) by {
        assert(objects.drop_last() =~= Seq::<TypeSummary>::empty());
    }
    let kept = shapes_with(shapes, field);
    lemma_schema_lookup(name, all_members(shapes), true, field);
    lemma_schema_lookup(name, all_members(kept), true, field);
    lemma_all_members_has_member(shapes, field);
    lemma_all_members_has_member(kept, field);
    lemma_values_named_shapes_with(shapes, field);
    if has_field(nested, field) {
        let i = choose|i: int| 0 <= i < shapes.len() && has_member(#[trigger] shapes[i], field);
        lemma_shapes_with_keeps(shapes, field, i);
        let k = choose|k: int| 0 <= k < kept.len() && kept[k] == shapes[i];
        assert(has_member(kept[k], field));
    }
}

} // verus!
