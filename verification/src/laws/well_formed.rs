//! Every reduced schema is well formed.

use vstd::prelude::*;
use crate::heights::{
    groups_height, lemma_array_elements_height, lemma_key_runs_height, lemma_object_shapes_below,
    lemma_values_named_height, shape_height, value_height, values_height,
};
use crate::laws::distinctness::{
    law_element_entries_distinct, law_item_entries_distinct, law_type_list_distinct,
};
use crate::laws::fields::{law_fields_ascend_and_are_not_empty, lemma_field_entries_index};
use crate::membership::{lemma_extremes, lemma_primitive_entries_contains};
use crate::model::{
    all_members, array_elements, has_array, is_primitive_tag, max_of, min_of, object_shapes,
    primitive_entries, sorted_field_names, string_entries, string_lengths, values_named,
    well_formed, well_formed_entry, well_formed_types, Member, RawValue, SchemaModel, Shape,
    TypeSummary,
};
use crate::reduction::{
    array_entries, element_entries, group_entries, item_entries, object_entries, other_entries,
    reduce, schema_of, summarize, type_list,
};
use crate::runs::key_runs;
use crate::text::{text_le, Text};

verus! {

/// The summary of a value taken by itself is well formed.
pub proof fn lemma_summary_is_well_formed(value: RawValue, merge: bool)
    ensures
        well_formed_entry(summarize(value, merge)),
    decreases value_height(value), 0nat, 0nat,
{
    match value {
        RawValue::Object(members) => {
            lemma_schema_is_well_formed("object"@, members, merge);
        },
        RawValue::Array(items) => {
            lemma_item_entries_are_well_formed(items, merge);
            law_item_entries_distinct(items, merge);
        },
        _ => {},
    }
}

/// Every summary of an array's items is well formed.
pub proof fn lemma_item_entries_are_well_formed(values: Seq<RawValue>, merge: bool)
    ensures
        forall|i: int|
            0 <= i < item_entries(values, merge).len() ==> well_formed_entry(
                #[trigger] item_entries(values, merge)[i],
            ),
    decreases values_height(values), 1nat, values.len(),
{
    if values.len() > 0 {
        lemma_item_entries_are_well_formed(values.drop_last(), merge);
        lemma_summary_is_well_formed(values.last(), merge);
        let rest = item_entries(values.drop_last(), merge);
        let list = item_entries(values, merge);
        assert forall|i: int| 0 <= i < list.len() implies well_formed_entry(#[trigger] list[i]) by {
            if i < rest.len() {
                assert(list[i] == rest[i]);
            }
        }
    }
}

/// Every summary of the other elements is well formed.
pub proof fn lemma_other_entries_are_well_formed(values: Seq<RawValue>, merge: bool)
    ensures
        forall|i: int|
            0 <= i < other_entries(values, merge).len() ==> well_formed_entry(
                #[trigger] other_entries(values, merge)[i],
            ),
    decreases values_height(values), 1nat, values.len(),
{
    if values.len() > 0 {
        lemma_other_entries_are_well_formed(values.drop_last(), merge);
        lemma_summary_is_well_formed(values.last(), merge);
        let rest = other_entries(values.drop_last(), merge);
        let list = other_entries(values, merge);
        assert forall|i: int| 0 <= i < list.len() implies well_formed_entry(#[trigger] list[i]) by {
            if i < rest.len() {
                assert(list[i] == rest[i]);
            }
        }
    }
}

/// The object entry of every group is well formed.
pub proof fn lemma_group_entries_are_well_formed(name: Text, groups: Seq<Seq<Shape>>)
    ensures
        forall|i: int|
            0 <= i < group_entries(name, groups).len() ==> well_formed_entry(
                #[trigger] group_entries(name, groups)[i],
            ),
    decreases groups_height(groups), 6nat, groups.len(),
{
    if groups.len() > 0 {
        lemma_group_entries_are_well_formed(name, groups.drop_last());
        lemma_schema_is_well_formed(name, all_members(groups.last()), false);
        let rest = group_entries(name, groups.drop_last());
        let list = group_entries(name, groups);
        assert forall|i: int| 0 <= i < list.len() implies well_formed_entry(#[trigger] list[i]) by {
            if i < rest.len() {
                assert(list[i] == rest[i]);
            }
        }
    }
}

/// Every object entry is well formed.
pub proof fn lemma_object_entries_are_well_formed(name: Text, values: Seq<RawValue>, merge: bool)
    ensures
        forall|i: int|
            0 <= i < object_entries(name, values, merge).len() ==> well_formed_entry(
                #[trigger] object_entries(name, values, merge)[i],
            ),
    decreases values_height(values), 1nat, 0nat,
{
    let shapes = object_shapes(values);
    if shapes.len() > 0 {
        lemma_object_shapes_below(values);
        lemma_key_runs_height(shapes);
        let list = object_entries(name, values, merge);
        if merge {
            lemma_schema_is_well_formed(name, all_members(shapes), true);
            assert forall|i: int| 0 <= i < list.len() implies well_formed_entry(
                #[trigger] list[i],
            ) by {
                assert(list[i] == TypeSummary::Object(schema_of(name, all_members(shapes), true)));
            }
        } else {
            lemma_group_entries_are_well_formed(name, key_runs(shapes));
            assert(list == group_entries(name, key_runs(shapes)));
        }
    }
}

/// The string range does not end before it begins.
pub proof fn lemma_string_entries_are_well_formed(lengths: Seq<nat>)
    ensures
        forall|i: int|
            0 <= i < string_entries(lengths).len() ==> well_formed_entry(
                #[trigger] string_entries(lengths)[i],
            ),
{
    if lengths.len() > 0 {
        lemma_extremes(lengths);
        assert(min_of(lengths) <= lengths[0] <= max_of(lengths));
    }
}

/// Every primitive entry has one of the three tags.
pub proof fn lemma_primitive_entries_are_well_formed(values: Seq<RawValue>)
    ensures
        forall|i: int|
            0 <= i < primitive_entries(values).len() ==> well_formed_entry(
                #[trigger] primitive_entries(values)[i],
            ),
{
    let entries = primitive_entries(values);
    assert forall|i: int| 0 <= i < entries.len() implies well_formed_entry(
        #[trigger] entries[i],
    ) by {
        assert(entries.contains(entries[i]));
        lemma_primitive_entries_contains(values, entries[i]);
    }
}

/// What an array entry holds is well formed.
pub proof fn lemma_element_entries_are_well_formed(name: Text, values: Seq<RawValue>, merge: bool)
    ensures
        well_formed_types(element_entries(name, values, merge)),
    decreases values_height(values), 2nat, 0nat,
{
    let objects = object_entries(name, values, merge);
    let others = other_entries(values, merge);
    let strings = string_entries(string_lengths(values));
    let list = element_entries(name, values, merge);
    lemma_object_entries_are_well_formed(name, values, merge);
    lemma_other_entries_are_well_formed(values, merge);
    lemma_string_entries_are_well_formed(string_lengths(values));
    law_element_entries_distinct(name, values, merge);
    assert forall|i: int| 0 <= i < list.len() implies well_formed_entry(#[trigger] list[i]) by {
        let a = objects.len();
        let b = a + others.len();
        if i < a {
            assert(list[i] == objects[i]);
        } else if i < b {
            assert(list[i] == others[i - a]);
        } else {
            assert(list[i] == strings[i - b]);
        }
    }
}

/// Every type list is well formed.
pub proof fn lemma_type_list_is_well_formed(name: Text, values: Seq<RawValue>, merge: bool)
    ensures
        well_formed_types(type_list(name, values, merge)),
    decreases values_height(values), 3nat, 0nat,
{
    let strings = string_entries(string_lengths(values));
    let objects = object_entries(name, values, merge);
    let primitives = primitive_entries(values);
    let arrays = array_entries(name, values, merge);
    let list = type_list(name, values, merge);
    lemma_string_entries_are_well_formed(string_lengths(values));
    lemma_object_entries_are_well_formed(name, values, merge);
    lemma_primitive_entries_are_well_formed(values);
    if has_array(values) {
        lemma_array_elements_height(values);
        lemma_element_entries_are_well_formed(name, array_elements(values), merge);
    }
    law_type_list_distinct(name, values, merge);
    assert forall|i: int| 0 <= i < list.len() implies well_formed_entry(#[trigger] list[i]) by {
        let a = strings.len();
        let b = a + objects.len();
        let c = b + primitives.len();
        if i < a {
            assert(list[i] == strings[i]);
        } else if i < b {
            assert(list[i] == objects[i - a]);
        } else if i < c {
            assert(list[i] == primitives[i - b]);
        } else {
            assert(list[i] == arrays[i - c]);
        }
    }
}

/// The schema of any members is well formed.
pub proof fn lemma_schema_is_well_formed(name: Text, members: Seq<Member>, merge: bool)
    ensures
        well_formed(schema_of(name, members, merge)),
    decreases shape_height(members), 5nat, 0nat,
{
    let schema = schema_of(name, members, merge);
    let names = sorted_field_names(members);
    lemma_field_entries_index(members, names, merge);
    assert(schema == reduce(name, seq![members], merge)) by {
        assert(seq![members].drop_last() =~= Seq::<Shape>::empty());
        assert(all_members(Seq::<Shape>::empty()) =~= Seq::<Member>::empty());
        assert(all_members(seq![members]) =~= members);
    }
    law_fields_ascend_and_are_not_empty(name, seq![members], merge);
    assert forall|i: int, j: int| 0 <= i < j < schema.fields.len() implies (
    #[trigger] schema.fields[i]).name != (#[trigger] schema.fields[j]).name && text_le(
        schema.fields[i].name,
        schema.fields[j].name,
    ) by {
        assert(reduce(name, seq![members], merge).fields[i].name != reduce(
            name,
            seq![members],
            merge,
        ).fields[j].name);
    }
    assert forall|k: int| 0 <= k < schema.fields.len() implies (
    #[trigger] schema.fields[k]).types.len() > 0 && well_formed_types(schema.fields[k].types) by {
        lemma_values_named_height(members, names[k]);
        lemma_type_list_is_well_formed(names[k], values_named(members, names[k]), merge);
        assert(reduce(name, seq![members], merge).fields[k].types.len() > 0);
    }
}

/// Every reduced schema is well formed: its field names ascend, each once;
/// no type list is empty; no entry but an object entry occurs twice in a
/// list; every primitive has one of the three tags; no string range ends
/// before it begins; and the same holds of whatever is nested in it.
pub proof fn law_reduction_is_well_formed(name: Text, shapes: Seq<Shape>, merge: bool)
    ensures
        well_formed(reduce(name, shapes, merge)),
{
    lemma_schema_is_well_formed(name, all_members(shapes), merge);
}

} // verus!
