//! Classified JSON values.

use vstd::prelude::*;
use crate::buckets::push_unique_type;
use crate::fingerprint::shapes_model;
use crate::heights::{lemma_values_height_index, value_height};
use crate::inference::{classify, classify_all, classify_members};
use crate::json::{
    items_model, lemma_items_model_index, lemma_members_model_index, members_model, JsonMember,
    JsonValue,
};
use crate::model::{all_members, Member, RawValue, Shape};
use crate::reduction::{item_entries, summarize};
use crate::schema::Schema;
use crate::schema_object::SchemaObject;
use crate::schema_object_key::SchemaObjectKey;
use crate::schema_value_type::{types_model, SchemaValueType};

verus! {

/// One JSON value, classified: its kind, the length of a string, the shape
/// of an object, the elements of an array.
#[derive(Debug)]
pub enum ValueType {
    Null,
    Bool,
    Number,
    /// A string of this many bytes of UTF-8.
    String(usize),
    Object(SchemaObject),
    Array(Vec<ValueType>),
}

/// What `value` is to the contracts.
pub open spec fn value_model(value: ValueType) -> RawValue
    decreases value,
{
    match value {
        ValueType::Null => RawValue::Null,
        ValueType::Bool => RawValue::Bool,
        ValueType::Number => RawValue::Number,
        ValueType::String(length) => RawValue::Str(length as nat),
        ValueType::Object(object) => RawValue::Object(keys_model(object.keys@)),
        ValueType::Array(items) => RawValue::Array(values_model(items@)),
    }
}

/// The members that `keys` stand for, in their order.
pub open spec fn keys_model(keys: Seq<SchemaObjectKey>) -> Seq<Member>
    decreases keys,
{
    if keys.len() == 0 {
        Seq::empty()
    } else {
        keys_model(keys.drop_last()).push(
            Member { name: keys.last().id@, value: value_model(keys.last().v_type) },
        )
    }
}

/// The values that `items` stand for, in their order.
pub open spec fn values_model(items: Seq<ValueType>) -> Seq<RawValue>
    decreases items,
{
    if items.len() == 0 {
        Seq::empty()
    } else {
        values_model(items.drop_last()).push(value_model(items.last()))
    }
}

impl View for ValueType {
    type V = RawValue;

    open spec fn view(&self) -> RawValue {
        value_model(*self)
    }
}

/// The model of a list of keys is, place by place, the model of each key.
pub proof fn lemma_keys_model_index(keys: Seq<SchemaObjectKey>)
    ensures
        keys_model(keys).len() == keys.len(),
        forall|i: int| 0 <= i < keys.len() ==> #[trigger] keys_model(keys)[i] == keys[i]@,
    decreases keys.len(),
{
    if keys.len() > 0 {
        lemma_keys_model_index(keys.drop_last());
    }
}

/// The model of a list of values is, place by place, the model of each.
pub proof fn lemma_values_model_index(items: Seq<ValueType>)
    ensures
        values_model(items).len() == items.len(),
        forall|i: int| 0 <= i < items.len() ==> #[trigger] values_model(items)[i] == items[i]@,
    decreases items.len(),
{
    if items.len() > 0 {
        lemma_values_model_index(items.drop_last());
    }
}

impl ValueType {
    /// Classifies `json`.
    pub fn from_json(json: &JsonValue) -> (value: ValueType)
        ensures
            value@ == classify(json@),
        decreases json,
    {
        match json {
            JsonValue::Null => ValueType::Null,
            JsonValue::Bool(_) => ValueType::Bool,
            JsonValue::Number(_) => ValueType::Number,
            JsonValue::String(text) => ValueType::String(text.as_str().as_bytes().len()),
            JsonValue::Object(members) => ValueType::Object(
                SchemaObject { keys: ValueType::keys_from_members(members) },
            ),
            JsonValue::Array(items) => {
                let ghost all = items_model(items@);
                proof {
                    lemma_items_model_index(items@);
                }
                let mut values: Vec<ValueType> = Vec::new();
                let mut i: usize = 0;
                while i < items.len()
                    invariant
                        i <= items.len(),
                        json is Array,
                        json->Array_0 == *items,
                        all == items_model(items@),
                        all.len() == items.len(),
                        forall|j: int| 0 <= j < items.len() ==> #[trigger] all[j] == items[j]@,
                        values_model(values@) == classify_all(all.take(i as int)),
                    decreases items.len() - i,
                {
                    proof {
                        assert(all.take(i + 1).drop_last() =~= all.take(i as int));
                        assert(all.take(i + 1).last() == items[i as int]@);
                    }
                    let value = ValueType::from_json(&items[i]);
                    proof {
                        assert(values@.push(value).drop_last() =~= values@);
                    }
                    values.push(value);
                    i += 1;
                }
                proof {
                    assert(all.take(items.len() as int) =~= all);
                }
                ValueType::Array(values)
            },
        }
    }

    /// The classified members of one object.
    pub fn keys_from_members(members: &Vec<JsonMember>) -> (keys: Vec<SchemaObjectKey>)
        ensures
            keys_model(keys@) == classify_members(members_model(members@)),
        decreases members,
    {
        let ghost all = members_model(members@);
        proof {
            lemma_members_model_index(members@);
        }
        let mut keys: Vec<SchemaObjectKey> = Vec::new();
        let mut i: usize = 0;
        while i < members.len()
            invariant
                i <= members.len(),
                all == members_model(members@),
                all.len() == members.len(),
                forall|j: int| 0 <= j < members.len() ==> #[trigger] all[j] == members[j]@,
                keys_model(keys@) == classify_members(all.take(i as int)),
            decreases members.len() - i,
        {
            proof {
                assert(all.take(i + 1).drop_last() =~= all.take(i as int));
                assert(all.take(i + 1).last() == members[i as int]@);
            }
            let key = SchemaObjectKey {
                id: members[i].key.clone(),
                v_type: ValueType::from_json(&members[i].value),
            };
            proof {
                assert(keys@.push(key).drop_last() =~= keys@);
            }
            keys.push(key);
            i += 1;
        }
        proof {
            assert(all.take(members.len() as int) =~= all);
        }
        keys
    }

    /// The summary of this value taken by itself.
    pub fn to_schema_value_type(&self, merge_objects: bool) -> (summary: SchemaValueType)
        ensures
            summary@ == summarize(self@, merge_objects),
        decreases value_height(self@), 0nat, 0nat,
    {
        match self {
            ValueType::Null => SchemaValueType::Primitive("NULL".to_owned()),
            ValueType::Bool => SchemaValueType::Primitive("BOOL".to_owned()),
            ValueType::Number => SchemaValueType::Primitive("NUMBER".to_owned()),
            ValueType::String(length) => SchemaValueType::String(*length, *length),
            ValueType::Object(object) => {
                let mut objects: Vec<SchemaObject> = Vec::new();
                objects.push(object.clone());
                proof {
                    let shapes = shapes_model(objects@);
                    assert(shapes =~= seq![object@]);
                    assert(shapes.drop_last() =~= Seq::<Shape>::empty());
                    assert(all_members(Seq::<Shape>::empty()) =~= Seq::<Member>::empty());
                    assert(all_members(shapes) =~= object@);
                }
                SchemaValueType::Object(
                    Schema::from_objects("object".to_owned(), objects, merge_objects),
                )
            },
            ValueType::Array(items) => {
                let ghost all = values_model(items@);
                proof {
                    lemma_values_model_index(items@);
                }
                let mut entries: Vec<SchemaValueType> = Vec::new();
                let mut i: usize = 0;
                while i < items.len()
                    invariant
                        i <= items.len(),
                        self is Array,
                        self->Array_0 == *items,
                        all == values_model(items@),
                        all.len() == items.len(),
                        forall|j: int| 0 <= j < items.len() ==> #[trigger] all[j] == items[j]@,
                        types_model(entries@) == item_entries(all.take(i as int), merge_objects),
                    decreases items.len() - i,
                {
                    proof {
                        assert(all.take(i + 1).drop_last() =~= all.take(i as int));
                        assert(all.take(i + 1).last() == items[i as int]@);
                        lemma_values_height_index(all, i as int);
                    }
                    let summary = items[i].to_schema_value_type(merge_objects);
                    push_unique_type(&mut entries, summary);
                    i += 1;
                }
                proof {
                    assert(all.take(items.len() as int) =~= all);
                }
                SchemaValueType::Array(entries)
            },
        }
    }
}

impl Clone for ValueType {
    fn clone(&self) -> (copy: Self)
        ensures
            copy@ == self@,
        decreases self,
    {
        match self {
            ValueType::Null => ValueType::Null,
            ValueType::Bool => ValueType::Bool,
            ValueType::Number => ValueType::Number,
            ValueType::String(length) => ValueType::String(*length),
            ValueType::Object(object) => ValueType::Object(object.clone()),
            ValueType::Array(items) => {
                let mut copies: Vec<ValueType> = Vec::new();
                let mut i: usize = 0;
                while i < items.len()
                    invariant
                        i <= items.len(),
                        values_model(copies@) == values_model(items@.take(i as int)),
                        self is Array,
                        self->Array_0 == *items,
                    decreases items.len() - i,
                {
                    let copy = items[i].clone();
                    proof {
                        assert(items@.take(i + 1).drop_last() =~= items@.take(i as int));
                        assert(copies@.push(copy).drop_last() =~= copies@);
                    }
                    copies.push(copy);
                    i += 1;
                }
                proof {
                    assert(items@.take(items.len() as int) =~= items@);
                }
                ValueType::Array(copies)
            },
        }
    }
}

} // verus!
