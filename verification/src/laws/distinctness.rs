//! No entry twice.

use vstd::prelude::*;
use crate::model::{
    object_shapes, primitive_entries, primitive_summary, push_unique, string_entries,
    string_lengths, RawValue, Shape, TypeSummary,
};
use crate::reduction::{
    array_entries, element_entries, group_entries, item_entries, object_entries, other_entries,
    summarize, type_list,
};
use crate::runs::key_runs;
use crate::text::Text;

verus! {

/// Whether no entry occurs twice in `list`.
pub open spec fn distinct(list: Seq<TypeSummary>) -> bool {
    forall|i: int, j: int| 0 <= i < j < list.len() ==> list[i] != list[j]
}

/// A new entry keeps a list free of repetitions.
pub proof fn lemma_push_unique_distinct(list: Seq<TypeSummary>, entry: TypeSummary)
    requires
        distinct(list),
    ensures
        distinct(push_unique(list, entry)),
{
    if !list.contains(entry) {
        let longer = list.push(entry);
        assert forall|i: int, j: int| 0 <= i < j < longer.len() implies longer[i] != longer[j] by {
            if j == list.len() {
                assert(list.contains(list[i]));
            }
        }
    }
}

/// The primitive entries are primitives, each once.
pub proof fn lemma_primitive_entries_distinct(values: Seq<RawValue>)
    ensures
        distinct(primitive_entries(values)),
        forall|i: int|
            0 <= i < primitive_entries(values).len() ==> (#[trigger] primitive_entries(
                values,
            )[i]) is Primitive,
    decreases values.len(),
{
    if values.len() > 0 {
        lemma_primitive_entries_distinct(values.drop_last());
        lemma_push_unique_distinct(
            primitive_entries(values.drop_last()),
            primitive_summary(values.last()),
        );
    }
}

/// The summaries of the other elements are primitives or arrays, each once.
pub proof fn lemma_other_entries_distinct(values: Seq<RawValue>, merge: bool)
    ensures
        distinct(other_entries(values, merge)),
        forall|i: int|
            0 <= i < other_entries(values, merge).len() ==> (#[trigger] other_entries(
                values,
                merge,
            )[i]) is Primitive || other_entries(values, merge)[i] is Array,
    decreases values.len(),
{
    if values.len() > 0 {
        lemma_other_entries_distinct(values.drop_last(), merge);
        lemma_push_unique_distinct(
            other_entries(values.drop_last(), merge),
            summarize(values.last(), merge),
        );
    }
}

/// The summary of an array holds no entry twice.
pub proof fn law_item_entries_distinct(values: Seq<RawValue>, merge: bool)
    ensures
        distinct(item_entries(values, merge)),
    decreases values.len(),
{
    if values.len() > 0 {
        law_item_entries_distinct(values.drop_last(), merge);
        lemma_push_unique_distinct(
            item_entries(values.drop_last(), merge),
            summarize(values.last(), merge),
        );
    }
}

/// The object entries are objects, and with merging there is at most one.
pub proof fn lemma_object_entries_are_objects(name: Text, values: Seq<RawValue>, merge: bool)
    ensures
        forall|i: int|
            0 <= i < object_entries(name, values, merge).len() ==> (#[trigger] object_entries(
                name,
                values,
                merge,
            )[i]) is Object,
        merge ==> object_entries(name, values, merge).len() <= 1,
{
    let shapes = object_shapes(values);
    if shapes.len() > 0 && !merge {
        lemma_group_entries_all_objects(name, key_runs(shapes));
    }
}

/// The entries of groups are objects.
pub proof fn lemma_group_entries_all_objects(name: Text, groups: Seq<Seq<Shape>>)
    ensures
        forall|i: int|
            0 <= i < group_entries(name, groups).len() ==> (#[trigger] group_entries(
                name,
                groups,
            )[i]) is Object,
    decreases groups.len(),
{
    if groups.len() > 0 {
        lemma_group_entries_all_objects(name, groups.drop_last());
    }
}

/// A type list holds no entry twice, but for the object entries of separate
/// runs where objects are not merged: those may be equal.
pub proof fn law_type_list_distinct(name: Text, values: Seq<RawValue>, merge: bool)
    ensures
        forall|i: int, j: int|
            0 <= i < j < type_list(name, values, merge).len() && type_list(name, values, merge)[i]
                == type_list(name, values, merge)[j] ==> !merge && type_list(
                name,
                values,
                merge,
            )[i] is Object,
        merge ==> distinct(type_list(name, values, merge)),
{
    let strings = string_entries(string_lengths(values));
    let objects = object_entries(name, values, merge);
    let primitives = primitive_entries(values);
    let arrays = array_entries(name, values, merge);
    let list = type_list(name, values, merge);
    lemma_object_entries_are_objects(name, values, merge);
    lemma_primitive_entries_distinct(values);
    assert forall|i: int, j: int| 0 <= i < j < list.len() && list[i] == list[j] implies !merge
        && list[i] is Object by {
        let a = strings.len();
        let b = a + objects.len();
        let c = b + primitives.len();
        if i < a {
            assert(list[i] == strings[i]);
        } else if i < b {
            assert(list[i] == objects[i - a]);
        } else if i < c {
            assert(list[i] == primitives[i - b]);
        } else {
            assert(list[i] == arrays[i - c]);
        }
        if j < a {
            assert(list[j] == strings[j]);
        } else if j < b {
            assert(list[j] == objects[j - a]);
        } else if j < c {
            assert(list[j] == primitives[j - b]);
        } else {
            assert(list[j] == arrays[j - c]);
        }
    }
}

/// What an array entry holds has no entry twice, but for the object entries
/// of separate runs where objects are not merged.
pub proof fn law_element_entries_distinct(name: Text, values: Seq<RawValue>, merge: bool)
    ensures
        forall|i: int, j: int|
            0 <= i < j < element_entries(name, values, merge).len() && element_entries(
                name,
                values,
                merge,
            )[i] == element_entries(name, values, merge)[j] ==> !merge && element_entries(
                name,
                values,
                merge,
            )[i] is Object,
        merge ==> distinct(element_entries(name, values, merge)),
{
    let objects = object_entries(name, values, merge);
    let others = other_entries(values, merge);
    let strings = string_entries(string_lengths(values));
    let list = element_entries(name, values, merge);
    lemma_object_entries_are_objects(name, values, merge);
    lemma_other_entries_distinct(values, merge);
    assert forall|i: int, j: int| 0 <= i < j < list.len() && list[i] == list[j] implies !merge
        && list[i] is Object by {
        let a = objects.len();
        let b = a + others.len();
        if i < a {
            assert(list[i] == objects[i]);
        } else if i < b {
            assert(list[i] == others[i - a]);
        } else {
            assert(list[i] == strings[i - b]);
        }
        if j < a {
            assert(list[j] == objects[j]);
        } else if j < b {
            assert(list[j] == others[j - a]);
        } else {
            assert(list[j] == strings[j - b]);
        }
    }
}

} // verus!
