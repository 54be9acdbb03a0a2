//! Schemas and their reduction from object shapes.

use vstd::prelude::*;
use vstd::seq_lib::lemma_sorted_unique;
use vstd::std_specs::cmp::PartialEqSpecImpl;
use crate::buckets::{
    collect_elements, collect_objects, find_field, lemma_types_model_concat, lemma_types_model_push,
    observe_fields, observed_names, push_unique_type, reduce_primitives, reduce_strings,
};
use crate::encoding::encode_schema;
use crate::fingerprint::{groups_model, shapes_model, sorted_names, texts};
use crate::heights::{
    groups_height, lemma_array_elements_height, lemma_groups_height_index, lemma_key_runs_height,
    lemma_object_shapes_below, lemma_values_height_index, lemma_values_named_height, shape_height,
    values_height,
};
use crate::inference::{classify, classify_all, classify_members, infer};
use crate::json::{items_model, lemma_items_model_index, JsonValue};
use crate::laws::well_formed::law_reduction_is_well_formed;
use crate::model::{
    all_members, field_names, lemma_sorted_field_names, object_shapes, sorted_field_names,
    values_named, well_formed, FieldModel, Member, SchemaModel,
};
use crate::reduction::{
    array_entries, element_entries, field_entries, group_entries, object_entries, other_entries,
    reduce, type_list,
};
use crate::runs::key_runs;
use crate::schema_object::SchemaObject;
use crate::schema_value_type::{
    clone_fields, clone_types, fields_equal, fields_model, fields_to_json, types_model,
    SchemaValueType,
};
use crate::text::{lemma_text_order_total, text_order, Text};
use crate::value_type::{lemma_values_model_index, values_model, ValueType};

verus! {

/// One field of a schema: its name and the kinds of value seen under it.
#[derive(Debug)]
pub struct SchemaField {
    pub name: String,
    pub types: Vec<SchemaValueType>,
}

/// The inferred structure of a collection of objects: a descriptive name
/// and, for each field name that occurs, the list of its type summaries.
#[derive(Debug)]
pub struct Schema {
    pub name: String,
    pub fields: Vec<SchemaField>,
}

impl View for SchemaField {
    type V = FieldModel;

    open spec fn view(&self) -> FieldModel {
        FieldModel { name: self.name@, types: types_model(self.types@) }
    }
}

impl View for Schema {
    type V = SchemaModel;

    open spec fn view(&self) -> SchemaModel {
        SchemaModel { name: self.name@, fields: fields_model(self.fields@) }
    }
}

impl Clone for SchemaField {
    fn clone(&self) -> (copy: Self)
        ensures
            copy@ == self@,
    {
        SchemaField { name: self.name.clone(), types: clone_types(&self.types) }
    }
}

impl Clone for Schema {
    fn clone(&self) -> (copy: Self)
        ensures
            copy@ == self@,
    {
        Schema { name: self.name.clone(), fields: clone_fields(&self.fields) }
    }
}

impl PartialEq for Schema {
    fn eq(&self, other: &Schema) -> (same: bool) {
        let same_name = self.name == other.name;
        same_name && fields_equal(&self.fields, &other.fields)
    }
}

impl PartialEqSpecImpl for Schema {
    open spec fn obeys_eq_spec() -> bool {
        true
    }

    open spec fn eq_spec(&self, other: &Schema) -> bool {
        self@ == other@
    }
}

/// The members of all `objects`, one object after the other.
pub open spec fn members_of(objects: Seq<SchemaObject>) -> Seq<Member> {
    all_members(shapes_model(objects))
}

/// Why no schema was inferred.
#[derive(Debug, Clone, Copy, PartialEq, Eq, Structural)]
pub enum SchemaError {
    /// The document is neither an object nor an array.
    InvalidTopLevelInput,
}

impl Schema {
    /// Infers the schema of a document: of the one object that it is, or of
    /// the objects among the elements of the array that it is. Elements that
    /// are no objects are left out. A document of another kind is refused.
    pub fn from_json(json: &JsonValue, merge_objects: bool) -> (result: Result<Schema, SchemaError>)
        ensures
            match infer(json@, merge_objects) {
                Some(model) => result is Ok && result->Ok_0@ == model,
                None => result is Err && result->Err_0 == SchemaError::InvalidTopLevelInput,
            },
            result is Ok ==> well_formed(result->Ok_0@),
    {
        match json {
            JsonValue::Object(_) => {
                let mut objects: Vec<SchemaObject> = Vec::new();
                objects.push(SchemaObject::from_json(json));
                proof {
                    assert(shapes_model(objects@) =~= seq![classify_members(json@->Object_0)]);
                }
                Ok(Schema::from_objects("root".to_owned(), objects, merge_objects))
            },
            JsonValue::Array(items) => {
                let ghost all = items_model(items@);
                proof {
                    lemma_items_model_index(items@);
                }
                let mut objects: Vec<SchemaObject> = Vec::new();
                let mut i: usize = 0;
                while i < items.len()
                    invariant
                        i <= items.len(),
                        all == items_model(items@),
                        all.len() == items.len(),
                        forall|j: int| 0 <= j < items.len() ==> #[trigger] all[j] == items[j]@,
                        shapes_model(objects@) == object_shapes(classify_all(all.take(i as int))),
                    decreases items.len() - i,
                {
                    proof {
                        assert(all.take(i + 1).drop_last() =~= all.take(i as int));
                        assert(all.take(i + 1).last() == items[i as int]@);
                        let before = classify_all(all.take(i as int));
                        assert(before.push(classify(items[i as int]@)).drop_last() =~= before);
                    }
                    match &items[i] {
                        JsonValue::Object(_) => {
                            let object = SchemaObject::from_json(&items[i]);
                            proof {
                                assert(shapes_model(objects@.push(object)) =~= shapes_model(
                                    objects@,
                                ).push(object@));
                            }
                            objects.push(object);
                        },
                        _ => {},
                    }
                    i += 1;
                }
                proof {
                    assert(all.take(items.len() as int) =~= all);
                }
                Ok(Schema::from_objects("root".to_owned(), objects, merge_objects))
            },
            _ => Err(SchemaError::InvalidTopLevelInput),
        }
    }

    /// The JSON encoding of this schema: an object with one member for each
    /// field, which holds the field's type list under the key `types`.
    pub fn to_json(&self) -> (json: JsonValue)
        ensures
            json@ == encode_schema(self@),
    {
        JsonValue::Object(fields_to_json(&self.fields))
    }

    /// The schema named `name` of `objects`.
    pub fn from_objects(name: String, objects: Vec<SchemaObject>, merge_objects: bool) -> (schema:
        Schema)
        ensures
            schema@ == reduce(name@, shapes_model(objects@), merge_objects),
            well_formed(schema@),
        decreases shape_height(members_of(objects@)), 7nat, 0nat,
    {
        proof {
            law_reduction_is_well_formed(name@, shapes_model(objects@), merge_objects);
        }
        Schema { name, fields: Schema::create_map(objects, merge_objects) }
    }

    /// The fields of the schema of `objects`: every field name that occurs,
    /// in ascending order of the names, with the type list of the values seen
    /// under it.
    pub fn create_map(objects: Vec<SchemaObject>, merge_objects: bool) -> (fields: Vec<
        SchemaField,
    >)
        ensures
            fields_model(fields@) == field_entries(
                members_of(objects@),
                sorted_field_names(members_of(objects@)),
                merge_objects,
            ),
        decreases shape_height(members_of(objects@)), 6nat, 0nat,
    {
        let ghost members = members_of(objects@);
        let observed = observe_fields(&objects);
        let mut unsorted: Vec<String> = Vec::new();
        let mut n: usize = 0;
        while n < observed.len()
            invariant
                n <= observed.len(),
                unsorted.len() == n,
                forall|j: int| 0 <= j < n ==> unsorted[j]@ == observed[j].name@,
            decreases observed.len() - n,
        {
            unsorted.push(observed[n].name.clone());
            n += 1;
        }
        proof {
            assert(texts(unsorted@) =~= observed_names(observed@));
        }
        let sorted = sorted_names(unsorted);
        let ghost names = texts(sorted@);
        proof {
            lemma_sorted_field_names(members);
            lemma_text_order_total();
            lemma_sorted_unique(names, sorted_field_names(members), text_order());
        }
        let mut fields: Vec<SchemaField> = Vec::new();
        let mut k: usize = 0;
        while k < sorted.len()
            invariant
                k <= sorted.len(),
                members == members_of(objects@),
                names == texts(sorted@),
                names == sorted_field_names(members),
                observed_names(observed@) == field_names(members),
                forall|n: int|
                    0 <= n < observed.len() ==> values_model(#[trigger] observed[n].values@)
                        == values_named(members, observed[n].name@),
                forall|field: Text|
                    names.contains(field) <==> field_names(members).contains(field),
                fields_model(fields@) == field_entries(
                    members,
                    names.take(k as int),
                    merge_objects,
                ),
            decreases sorted.len() - k,
        {
            proof {
                assert(names.take(k + 1).drop_last() =~= names.take(k as int));
                assert(names.take(k + 1).last() == sorted[k as int]@);
                assert(names.contains(names[k as int]));
            }
            match find_field(&observed, &sorted[k]) {
                Some(at) => {
                    let bucket = &observed[at];
                    proof {
                        lemma_values_named_height(members, bucket.name@);
                    }
                    let types = Schema::reduce_field(&bucket.name, &bucket.values, merge_objects);
                    let field = SchemaField { name: bucket.name.clone(), types };
                    proof {
                        assert(fields@.push(field).drop_last() =~= fields@);
                    }
                    fields.push(field);
                },
                None => {
                    proof {
                        let field = names[k as int];
                        let at = choose|at: int|
                            0 <= at < observed.len() && observed_names(observed@)[at] == field;
                        assert(observed[at].name@ == field);
                    }
                },
            }
            k += 1;
        }
        proof {
            assert(names.take(sorted.len() as int) =~= names);
        }
        fields
    }

    /// The type list of the field `name`, of which `values` were observed.
    pub fn reduce_field(name: &String, values: &Vec<ValueType>, merge_objects: bool) -> (types:
        Vec<SchemaValueType>)
        ensures
            types_model(types@) == type_list(name@, values_model(values@), merge_objects),
        decreases values_height(values_model(values@)), 3nat, 0nat,
    {
        let mut types = reduce_strings(values);
        let mut objects = Schema::reduce_objects(name, values, merge_objects);
        let mut primitives = reduce_primitives(values);
        let mut arrays = Schema::reduce_arrays(name, values, merge_objects);
        proof {
            lemma_types_model_concat(types@, objects@);
            lemma_types_model_concat(types@ + objects@, primitives@);
            lemma_types_model_concat(types@ + objects@ + primitives@, arrays@);
        }
        types.append(&mut objects);
        types.append(&mut primitives);
        types.append(&mut arrays);
        types
    }

    /// The entries for the objects among `values`.
    pub fn reduce_objects(name: &String, values: &Vec<ValueType>, merge_objects: bool) -> (entries:
        Vec<SchemaValueType>)
        ensures
            types_model(entries@) == object_entries(name@, values_model(values@), merge_objects),
        decreases values_height(values_model(values@)), 1nat, 0nat,
    {
        let objects = collect_objects(values);
        let mut entries: Vec<SchemaValueType> = Vec::new();
        if objects.len() == 0 {
            return entries;
        }
        let ghost shapes = shapes_model(objects@);
        proof {
            lemma_object_shapes_below(values_model(values@));
            lemma_key_runs_height(shapes);
        }
        if merge_objects {
            let schema = Schema::from_objects(name.clone(), objects, true);
            proof {
                lemma_types_model_push(entries@, SchemaValueType::Object(schema));
            }
            entries.push(SchemaValueType::Object(schema));
        } else {
            let groups = Schema::group_objects_by_keys_fingerprint(objects);
            let ghost runs = groups_model(groups@);
            let ghost all = groups@;
            for group in it: groups.into_iter()
                invariant
                    it.seq() == all,
                    runs == groups_model(all),
                    runs == key_runs(shapes),
                    groups_height(runs) < values_height(values_model(values@)),
                    types_model(entries@) == group_entries(name@, runs.take(it.index() as int)),
            {
                proof {
                    lemma_groups_height_index(runs, it.index() as int);
                    assert(runs.take(it.index() + 1).drop_last() =~= runs.take(it.index() as int));
                    assert(runs.take(it.index() + 1).last() == shapes_model(group@));
                }
                let schema = Schema::from_objects(name.clone(), group, false);
                proof {
                    lemma_types_model_push(entries@, SchemaValueType::Object(schema));
                }
                entries.push(SchemaValueType::Object(schema));
            }
            proof {
                assert(runs.take(all.len() as int) =~= runs);
            }
        }
        entries
    }

    /// The one entry for the arrays among `values`, if there are any.
    pub fn reduce_arrays(name: &String, values: &Vec<ValueType>, merge_objects: bool) -> (entries:
        Vec<SchemaValueType>)
        ensures
            types_model(entries@) == array_entries(name@, values_model(values@), merge_objects),
        decreases values_height(values_model(values@)), 2nat, 0nat,
    {
        let (any, elements) = collect_elements(values);
        let mut entries: Vec<SchemaValueType> = Vec::new();
        if any {
            proof {
                lemma_array_elements_height(values_model(values@));
            }
            let summary = SchemaValueType::Array(
                Schema::reduce_elements(name, &elements, merge_objects),
            );
            proof {
                lemma_types_model_push(entries@, summary);
            }
            entries.push(summary);
        }
        entries
    }

    /// What an array entry holds for the elements `values`.
    pub fn reduce_elements(name: &String, values: &Vec<ValueType>, merge_objects: bool) -> (entries:
        Vec<SchemaValueType>)
        ensures
            types_model(entries@) == element_entries(name@, values_model(values@), merge_objects),
        decreases values_height(values_model(values@)), 2nat, 0nat,
    {
        let mut entries = Schema::reduce_objects(name, values, merge_objects);
        let mut others = Schema::reduce_others(values, merge_objects);
        let mut strings = reduce_strings(values);
        proof {
            lemma_types_model_concat(entries@, others@);
            lemma_types_model_concat(entries@ + others@, strings@);
        }
        entries.append(&mut others);
        entries.append(&mut strings);
        entries
    }

    /// The distinct summaries of those of `values` that are neither strings
    /// nor objects.
    pub fn reduce_others(values: &Vec<ValueType>, merge_objects: bool) -> (entries: Vec<
        SchemaValueType,
    >)
        ensures
            types_model(entries@) == other_entries(values_model(values@), merge_objects),
        decreases values_height(values_model(values@)), 1nat, 0nat,
    {
        let ghost all = values_model(values@);
        proof {
            lemma_values_model_index(values@);
        }
        let mut entries: Vec<SchemaValueType> = Vec::new();
        let mut i: usize = 0;
        while i < values.len()
            invariant
                i <= values.len(),
                all == values_model(values@),
                all.len() == values.len(),
                forall|j: int| 0 <= j < values.len() ==> #[trigger] all[j] == values[j]@,
                types_model(entries@) == other_entries(all.take(i as int), merge_objects),
            decreases values.len() - i,
        {
            proof {
                assert(all.take(i + 1).drop_last() =~= all.take(i as int));
                assert(all.take(i + 1).last() == values[i as int]@);
                lemma_values_height_index(all, i as int);
            }
            match &values[i] {
                ValueType::String(_) => {},
                ValueType::Object(_) => {},
                value => {
                    let summary = value.to_schema_value_type(merge_objects);
                    push_unique_type(&mut entries, summary);
                },
            }
            i += 1;
        }
        proof {
            assert(all.take(values.len() as int) =~= all);
        }
        entries
    }
}

} // verus!
