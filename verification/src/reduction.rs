//! What the reduction of a collection of shapes is.
//!
//! The functions here say, for every input, which schema the reducer owes.
//! They follow the nesting of the input, so each of them ends.

use vstd::prelude::*;
use crate::heights::{
    groups_height, lemma_array_elements_height, lemma_key_runs_height, lemma_object_shapes_below,
    lemma_values_named_height, shape_height, value_height, values_height,
};
use crate::model::{
    all_members, array_elements, has_array, object_shapes, primitive_entries, primitive_summary,
    push_unique, sorted_field_names, string_entries, string_lengths, values_named, FieldModel,
    Member, RawValue, SchemaModel, Shape, TypeSummary,
};
use crate::runs::key_runs;
use crate::text::Text;

verus! {

/// The schema named `name` of `shapes`.
///
/// With `merge` set, the objects seen under one field are reduced together
/// into one nested schema; without it, each run of consecutive objects with
/// one key-set fingerprint gets a nested schema of its own.
pub open spec fn reduce(name: Text, shapes: Seq<Shape>, merge: bool) -> SchemaModel {
    schema_of(name, all_members(shapes), merge)
}

/// The schema named `name` of the observations that `members` are: one
/// field for each distinct member name, in ascending order of the names,
/// with the type list of the values observed under that name.
pub open spec fn schema_of(name: Text, members: Seq<Member>, merge: bool) -> SchemaModel
    decreases shape_height(members), 5nat, 0nat,
{
    SchemaModel { name, fields: field_entries(members, sorted_field_names(members), merge) }
}

/// For each of `names`, the field of that name with its type list over
/// `members`.
pub open spec fn field_entries(members: Seq<Member>, names: Seq<Text>, merge: bool) -> Seq<
    FieldModel,
>
    decreases shape_height(members), 4nat, names.len(),
{
    if names.len() == 0 {
        Seq::empty()
    } else {
        let name = names.last();
        proof {
            lemma_values_named_height(members, name);
        }
        field_entries(members, names.drop_last(), merge).push(
            FieldModel { name, types: type_list(name, values_named(members, name), merge) },
        )
    }
}

/// The type list of the field `name`, of which `values` were observed: the
/// string range, then the object entries, then the primitives, then the
/// array entry, each only where such values were seen.
pub open spec fn type_list(name: Text, values: Seq<RawValue>, merge: bool) -> Seq<TypeSummary>
    decreases values_height(values), 3nat, 0nat,
{
    string_entries(string_lengths(values)) + object_entries(name, values, merge)
        + primitive_entries(values) + array_entries(name, values, merge)
}

/// The entries for the objects among `values`: with `merge` one schema of
/// them all, without it one schema for each run of `key_runs`.
pub open spec fn object_entries(name: Text, values: Seq<RawValue>, merge: bool) -> Seq<TypeSummary>
    decreases values_height(values), 1nat, 0nat,
{
    let shapes = object_shapes(values);
    if shapes.len() == 0 {
        Seq::empty()
    } else {
        proof {
            lemma_object_shapes_below(values);
            lemma_key_runs_height(shapes);
        }
        if merge {
            seq![TypeSummary::Object(schema_of(name, all_members(shapes), true))]
        } else {
            group_entries(name, key_runs(shapes))
        }
    }
}

/// One object entry for each of `groups`: the schema of the group's shapes,
/// reduced without merging.
pub open spec fn group_entries(name: Text, groups: Seq<Seq<Shape>>) -> Seq<TypeSummary>
    decreases groups_height(groups), 6nat, groups.len(),
{
    if groups.len() == 0 {
        Seq::empty()
    } else {
        group_entries(name, groups.drop_last()).push(
            TypeSummary::Object(schema_of(name, all_members(groups.last()), false)),
        )
    }
}

/// The one entry for the arrays among `values`, if there are any: the
/// summary of all their elements together.
pub open spec fn array_entries(name: Text, values: Seq<RawValue>, merge: bool) -> Seq<TypeSummary>
    decreases values_height(values), 2nat, 0nat,
{
    if has_array(values) {
        proof {
            lemma_array_elements_height(values);
        }
        seq![TypeSummary::Array(element_entries(name, array_elements(values), merge))]
    } else {
        Seq::empty()
    }
}

/// What an array entry holds for the elements `values`: the object entries,
/// then one entry for each distinct summary of the other elements that are
/// no strings, then the string range.
pub open spec fn element_entries(name: Text, values: Seq<RawValue>, merge: bool) -> Seq<
    TypeSummary,
>
    decreases values_height(values), 2nat, 0nat,
{
    object_entries(name, values, merge) + other_entries(values, merge) + string_entries(
        string_lengths(values),
    )
}

/// The distinct summaries of those of `values` that are neither strings nor
/// objects, each where it first occurs.
pub open spec fn other_entries(values: Seq<RawValue>, merge: bool) -> Seq<TypeSummary>
    decreases values_height(values), 1nat, values.len(),
{
    if values.len() == 0 {
        Seq::empty()
    } else {
        let rest = other_entries(values.drop_last(), merge);
        match values.last() {
            RawValue::Str(_) => rest,
            RawValue::Object(_) => rest,
            value => push_unique(rest, summarize(value, merge)),
        }
    }
}

/// The distinct summaries of `values`, each where it first occurs.
pub open spec fn item_entries(values: Seq<RawValue>, merge: bool) -> Seq<TypeSummary>
    decreases values_height(values), 1nat, values.len(),
{
    if values.len() == 0 {
        Seq::empty()
    } else {
        push_unique(item_entries(values.drop_last(), merge), summarize(values.last(), merge))
    }
}

/// The summary of one value taken by itself: a string is the range of its
/// own length, an object the schema named `object` of that one shape, an
/// array the distinct summaries of its elements.
pub open spec fn summarize(value: RawValue, merge: bool) -> TypeSummary
    decreases value_height(value), 0nat, 0nat,
{
    match value {
        RawValue::Str(length) => TypeSummary::StringRange(length, length),
        RawValue::Object(members) => TypeSummary::Object(schema_of("object"@, members, merge)),
        RawValue::Array(items) => TypeSummary::Array(item_entries(items, merge)),
        _ => primitive_summary(value),
    }
}

} // verus!
