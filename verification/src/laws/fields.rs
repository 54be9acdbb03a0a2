//! The fields of a schema and how to look one up.

use vstd::prelude::*;
use crate::laws::run_counts::{
    lemma_group_entries_are_objects, lemma_run_count_positive, lemma_runs_len,
};
use crate::membership::{
    lemma_has_array_contains, lemma_object_shapes_contains, lemma_primitive_entries_contains,
    lemma_string_lengths_contains, lemma_values_named_contains, some_primitive_gives,
};
use crate::model::{
    all_members, has_member, is_primitive, lemma_field_names_contains, lemma_sorted_field_names,
    object_shapes, primitive_summary, sorted_field_names, values_named, FieldModel, Member,
    RawValue, SchemaModel, Shape, TypeSummary,
};
use crate::reduction::{field_entries, reduce, schema_of, type_list};
use crate::runs::{fingerprints, key_runs};
use crate::text::{text_le, text_order, Text};

verus! {

/// The fields of a schema are the distinct member names, each with the type
/// list of its observations.
pub proof fn lemma_field_entries_index(members: Seq<Member>, names: Seq<Text>, merge: bool)
    ensures
        field_entries(members, names, merge).len() == names.len(),
        forall|k: int|
            0 <= k < names.len() ==> #[trigger] field_entries(members, names, merge)[k]
                == (FieldModel {
                name: names[k],
                types: type_list(names[k], values_named(members, names[k]), merge),
            }),
    decreases names.len(),
{
    if names.len() > 0 {
        lemma_field_entries_index(members, names.drop_last(), merge);
    }
}

/// Whether `schema` has a field named `field`.
pub open spec fn has_field(schema: SchemaModel, field: Text) -> bool {
    exists|k: int| 0 <= k < schema.fields.len() && (#[trigger] schema.fields[k]).name == field
}

/// The type list of the field of `schema` that is named `field`.
pub open spec fn types_of(schema: SchemaModel, field: Text) -> Seq<TypeSummary>
    recommends
        has_field(schema, field),
{
    let k = choose|k: int|
        0 <= k < schema.fields.len() && (#[trigger] schema.fields[k]).name == field;
    schema.fields[k].types
}

/// A schema has a field for each member name, and the field holds the type
/// list of the observations under that name.
pub proof fn lemma_schema_lookup(name: Text, members: Seq<Member>, merge: bool, field: Text)
    ensures
        has_field(schema_of(name, members, merge), field) <==> has_member(members, field),
        has_member(members, field) ==> types_of(schema_of(name, members, merge), field)
            == type_list(field, values_named(members, field), merge),
{
    let names = sorted_field_names(members);
    let schema = schema_of(name, members, merge);
    lemma_field_entries_index(members, names, merge);
    lemma_sorted_field_names(members);
    lemma_field_names_contains(members, field);
    if names.contains(field) {
        let k = choose|k: int| 0 <= k < names.len() && names[k] == field;
        assert(schema.fields[k].name == field);
    }
    if has_field(schema, field) {
        let k = choose|k: int|
        0 <= k < schema.fields.len() && (#[trigger] schema.fields[k]).name == field;
        assert(names[k] == field);
    }
}

/// A schema has each of its field names once, in ascending order, and
/// every field has at least one entry in its type list.
pub proof fn law_fields_ascend_and_are_not_empty(name: Text, shapes: Seq<Shape>, merge: bool)
    ensures
        reduce(name, shapes, merge).name == name,
        forall|i: int, j: int|
            #![trigger reduce(name, shapes, merge).fields[i], reduce(name, shapes, merge).fields[j]]
            0 <= i < j < reduce(name, shapes, merge).fields.len() ==> reduce(
                name,
                shapes,
                merge,
            ).fields[i].name != reduce(name, shapes, merge).fields[j].name && text_le(
                reduce(name, shapes, merge).fields[i].name,
                reduce(name, shapes, merge).fields[j].name,
            ),
        forall|k: int|
            0 <= k < reduce(name, shapes, merge).fields.len() ==> (#[trigger] reduce(
                name,
                shapes,
                merge,
            ).fields[k]).types.len() > 0,
{
    let members = all_members(shapes);
    let names = sorted_field_names(members);
    let schema = reduce(name, shapes, merge);
    lemma_field_entries_index(members, names, merge);
    lemma_sorted_field_names(members);
    assert forall|i: int, j: int|
        #![trigger schema.fields[i], schema.fields[j]]
        0 <= i < j < schema.fields.len() implies schema.fields[i].name != schema.fields[j].name
            && text_le(schema.fields[i].name, schema.fields[j].name) by {
        assert(text_order()(names[i], names[j]));
    }
    assert forall|k: int| 0 <= k < schema.fields.len() implies (
    #[trigger] schema.fields[k]).types.len() > 0 by {
        let field = names[k];
        assert(names.contains(names[k]));
        lemma_field_names_contains(members, field);
        let j = choose|j: int| 0 <= j < members.len() && (#[trigger] members[j]).name == field;
        assert(members.contains(members[j]));
        lemma_values_named_contains(members, field, members[j].value);
        lemma_type_list_not_empty(field, values_named(members, field), merge);
    }
}

/// Every observation leaves an entry: a type list is empty only where
/// nothing was observed.
pub proof fn lemma_type_list_not_empty(name: Text, values: Seq<RawValue>, merge: bool)
    requires
        values.len() > 0,
    ensures
        type_list(name, values, merge).len() > 0,
{
    let value = values[0];
    assert(values.contains(value));
    match value {
        RawValue::Str(length) => {
            lemma_string_lengths_contains(values, length);
        },
        RawValue::Object(shape) => {
            lemma_object_shapes_contains(values, shape);
            let shapes = object_shapes(values);
            if !merge {
                lemma_runs_len(shapes, fingerprints(shapes));
                lemma_group_entries_are_objects(name, key_runs(shapes));
                lemma_run_count_positive(fingerprints(shapes));
            }
        },
        RawValue::Array(_) => {
            lemma_has_array_contains(values);
        },
        _ => {
            lemma_primitive_entries_contains(values, primitive_summary(value));
            assert(is_primitive(values[0]));
            assert(some_primitive_gives(values, primitive_summary(value)));
        },
    }
}

} // verus!
