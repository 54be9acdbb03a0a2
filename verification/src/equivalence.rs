//! Schemas that differ only in the order of their lists.

use vstd::prelude::*;
use crate::model::{FieldModel, SchemaModel, TypeSummary};

verus! {

/// Whether `left` and `right` hold the same elements, however often and in
/// whatever order.
pub open spec fn same_elements<T>(left: Seq<T>, right: Seq<T>) -> bool {
    forall|x: T| left.contains(x) <==> right.contains(x)
}

/// Whether two entries are equal but for the order of the lists in them.
pub open spec fn equivalent(left: TypeSummary, right: TypeSummary) -> bool
    decreases left, 0nat,
{
    match left {
        TypeSummary::Array(items) => right is Array && same_types(items, right->Array_0),
        TypeSummary::Object(schema) => right is Object && same_schema(schema, right->Object_0),
        _ => left == right,
    }
}

/// Whether `list` holds an entry that `entry` is equivalent to.
pub open spec fn covered(list: Seq<TypeSummary>, entry: TypeSummary) -> bool
    decreases entry, 1nat,
{
    exists|j: int| 0 <= j < list.len() && equivalent(entry, #[trigger] list[j])
}

/// Whether `list` holds an entry that is equivalent to `entry`.
pub open spec fn covers(list: Seq<TypeSummary>, entry: TypeSummary) -> bool
    decreases list, 1nat,
{
    exists|i: int| 0 <= i < list.len() && equivalent(#[trigger] list[i], entry)
}

/// Whether two type lists are equal as sets: each entry of either has an
/// equivalent entry in the other.
pub open spec fn same_types(left: Seq<TypeSummary>, right: Seq<TypeSummary>) -> bool
    decreases left, 2nat,
{
    &&& forall|i: int| 0 <= i < left.len() ==> covered(right, #[trigger] left[i])
    &&& forall|j: int| 0 <= j < right.len() ==> covers(left, #[trigger] right[j])
}

/// Whether `fields` holds a field of the name of `field` with the same types.
pub open spec fn field_covered(fields: Seq<FieldModel>, field: FieldModel) -> bool
    decreases field, 3nat,
{
    exists|j: int|
        0 <= j < fields.len() && (#[trigger] fields[j]).name == field.name && same_types(
            field.types,
            fields[j].types,
        )
}

/// Whether `fields` holds a field of the name of `field` with the same types.
pub open spec fn field_covers(fields: Seq<FieldModel>, field: FieldModel) -> bool
    decreases fields, 3nat,
{
    exists|i: int|
        0 <= i < fields.len() && (#[trigger] fields[i]).name == field.name && same_types(
            fields[i].types,
            field.types,
        )
}

/// Whether two schemas map the same field names to the same type sets:
/// they have one name, each field of either is a field of the other, and the
/// type lists of a field are equal as sets, nested schemas compared in the
/// same way.
pub open spec fn same_schema(left: SchemaModel, right: SchemaModel) -> bool
    decreases left, 4nat,
{
    &&& left.name == right.name
    &&& forall|i: int|
        0 <= i < left.fields.len() ==> field_covered(right.fields, #[trigger] left.fields[i])
    &&& forall|j: int|
        0 <= j < right.fields.len() ==> field_covers(left.fields, #[trigger] right.fields[j])
}

/// Every entry is equivalent to itself.
pub proof fn lemma_equivalent_reflexive(entry: TypeSummary)
    ensures
        equivalent(entry, entry),
    decreases entry, 0nat,
{
    match entry {
        TypeSummary::Array(items) => {
            lemma_same_types_reflexive(items);
        },
        TypeSummary::Object(schema) => {
            lemma_same_schema_reflexive(schema);
        },
        _ => {},
    }
}

/// Every list is equal to itself as a set.
pub proof fn lemma_same_types_reflexive(list: Seq<TypeSummary>)
    ensures
        same_types(list, list),
    decreases list, 1nat,
{
    assert forall|i: int| 0 <= i < list.len() implies covered(list, #[trigger] list[i]) && covers(
        list,
        list[i],
    ) by {
        lemma_equivalent_reflexive(list[i]);
    }
}

/// Every schema maps its field names to the same type sets as itself.
pub proof fn lemma_same_schema_reflexive(schema: SchemaModel)
    ensures
        same_schema(schema, schema),
    decreases schema, 1nat,
{
    let fields = schema.fields;
    assert forall|i: int| 0 <= i < fields.len() implies field_covered(fields, #[trigger] fields[i])
        && field_covers(fields, fields[i]) by {
        lemma_same_types_reflexive(fields[i].types);
    }
}

/// Lists with the same elements are equal as sets.
pub proof fn lemma_same_elements_same_types(left: Seq<TypeSummary>, right: Seq<TypeSummary>)
    requires
        same_elements(left, right),
    ensures
        same_types(left, right),
{
    assert forall|i: int| 0 <= i < left.len() implies covered(right, #[trigger] left[i]) by {
        assert(left.contains(left[i]));
        assert(right.contains(left[i]));
        let j = choose|j: int| 0 <= j < right.len() && right[j] == left[i];
        lemma_equivalent_reflexive(left[i]);
    }
    assert forall|j: int| 0 <= j < right.len() implies covers(left, #[trigger] right[j]) by {
        assert(right.contains(right[j]));
        assert(left.contains(right[j]));
        let i = choose|i: int| 0 <= i < left.len() && left[i] == right[j];
        lemma_equivalent_reflexive(right[j]);
    }
}

/// Lists that are equal as sets part by part are equal as sets.
pub proof fn lemma_same_types_concat(
    left: Seq<TypeSummary>,
    more_left: Seq<TypeSummary>,
    right: Seq<TypeSummary>,
    more_right: Seq<TypeSummary>,
)
    requires
        same_types(left, right),
        same_types(more_left, more_right),
    ensures
        same_types(left + more_left, right + more_right),
{
    let a = left + more_left;
    let b = right + more_right;
    assert forall|i: int| 0 <= i < a.len() implies covered(b, #[trigger] a[i]) by {
        if i < left.len() {
            assert(covered(right, left[i]));
            let j = choose|j: int| 0 <= j < right.len() && equivalent(left[i], #[trigger] right[j]);
            assert(b[j] == right[j]);
        } else {
            let k = i - left.len();
            assert(covered(more_right, more_left[k]));
            let j = choose|j: int|
                0 <= j < more_right.len() && equivalent(more_left[k], #[trigger] more_right[j]);
            assert(b[right.len() + j] == more_right[j]);
        }
    }
    assert forall|j: int| 0 <= j < b.len() implies covers(a, #[trigger] b[j]) by {
        if j < right.len() {
            assert(covers(left, right[j]));
            let i = choose|i: int| 0 <= i < left.len() && equivalent(#[trigger] left[i], right[j]);
            assert(a[i] == left[i]);
        } else {
            let k = j - right.len();
            assert(covers(more_left, more_right[k]));
            let i = choose|i: int|
                0 <= i < more_left.len() && equivalent(#[trigger] more_left[i], more_right[k]);
            assert(a[left.len() + i] == more_left[i]);
        }
    }
}

/// Lists of one entry each are equal as sets where the entries are
/// equivalent.
pub proof fn lemma_same_types_single(left: TypeSummary, right: TypeSummary)
    requires
        equivalent(left, right),
    ensures
        same_types(seq![left], seq![right]),
{
    assert(seq![right][0] == right);
    assert(seq![left][0] == left);
}

} // verus!
