//! The entries of a field's type list.

use vstd::prelude::*;
use vstd::std_specs::cmp::PartialEqSpecImpl;
use crate::encoding::{encode_fields, encode_type, encode_types, range_string};
use crate::json::{items_model, members_model, JsonMember, JsonModel, JsonValue, MemberModel};
use crate::model::{FieldModel, SchemaModel, TypeSummary};
use crate::schema::{Schema, SchemaField};

verus! {

/// One kind of value seen for a field, or among the elements of its arrays.
#[derive(Debug)]
pub enum SchemaValueType {
    /// `NULL`, `BOOL` or `NUMBER`.
    Primitive(String),
    /// The least and the greatest length of the strings seen.
    String(usize, usize),
    /// The summaries of the elements seen in arrays.
    Array(Vec<SchemaValueType>),
    /// The schema of the objects seen.
    Object(Schema),
}

/// What `entry` is to the contracts.
pub open spec fn summary_model(entry: SchemaValueType) -> TypeSummary
    decreases entry,
{
    match entry {
        SchemaValueType::Primitive(tag) => TypeSummary::Primitive(tag@),
        SchemaValueType::String(least, greatest) => TypeSummary::StringRange(
            least as nat,
            greatest as nat,
        ),
        SchemaValueType::Array(items) => TypeSummary::Array(types_model(items@)),
        SchemaValueType::Object(schema) => TypeSummary::Object(
            SchemaModel { name: schema.name@, fields: fields_model(schema.fields@) },
        ),
    }
}

/// The summaries that `entries` stand for, in their order.
pub open spec fn types_model(entries: Seq<SchemaValueType>) -> Seq<TypeSummary>
    decreases entries,
{
    if entries.len() == 0 {
        Seq::empty()
    } else {
        types_model(entries.drop_last()).push(summary_model(entries.last()))
    }
}

/// The fields that `fields` stand for, in their order.
pub open spec fn fields_model(fields: Seq<SchemaField>) -> Seq<FieldModel>
    decreases fields,
{
    if fields.len() == 0 {
        Seq::empty()
    } else {
        fields_model(fields.drop_last()).push(
            FieldModel { name: fields.last().name@, types: types_model(fields.last().types@) },
        )
    }
}

impl View for SchemaValueType {
    type V = TypeSummary;

    open spec fn view(&self) -> TypeSummary {
        summary_model(*self)
    }
}

/// The model of a type list is, place by place, the model of each entry.
pub proof fn lemma_types_model_index(entries: Seq<SchemaValueType>)
    ensures
        types_model(entries).len() == entries.len(),
        forall|i: int| 0 <= i < entries.len() ==> #[trigger] types_model(entries)[i] == entries[i]@,
    decreases entries.len(),
{
    if entries.len() > 0 {
        lemma_types_model_index(entries.drop_last());
    }
}

/// The model of a field list is, place by place, the model of each field.
pub proof fn lemma_fields_model_index(fields: Seq<SchemaField>)
    ensures
        fields_model(fields).len() == fields.len(),
        forall|i: int| 0 <= i < fields.len() ==> #[trigger] fields_model(fields)[i] == fields[i]@,
    decreases fields.len(),
{
    if fields.len() > 0 {
        lemma_fields_model_index(fields.drop_last());
    }
}

/// Whether two type lists stand for the same summaries in the same order.
pub fn types_equal(left: &Vec<SchemaValueType>, right: &Vec<SchemaValueType>) -> (same: bool)
    ensures
        same == (types_model(left@) == types_model(right@)),
    decreases left,
{
    proof {
        lemma_types_model_index(left@);
        lemma_types_model_index(right@);
    }
    if left.len() != right.len() {
        return false;
    }
    let mut i: usize = 0;
    while i < left.len()
        invariant
            i <= left.len(),
            left.len() == right.len(),
            forall|j: int| 0 <= j < i ==> left[j]@ == right[j]@,
            types_model(left@).len() == left.len(),
            types_model(right@).len() == right.len(),
            forall|j: int| 0 <= j < left.len() ==> #[trigger] types_model(left@)[j] == left[j]@,
            forall|j: int| 0 <= j < right.len() ==> #[trigger] types_model(right@)[j] == right[j]@,
        decreases left.len() - i,
    {
        if !left[i].equals(&right[i]) {
            proof {
                assert(types_model(left@)[i as int] != types_model(right@)[i as int]);
            }
            return false;
        }
        i += 1;
    }
    proof {
        assert(types_model(left@) =~= types_model(right@));
    }
    true
}

/// Whether two field lists stand for the same fields in the same order.
pub fn fields_equal(left: &Vec<SchemaField>, right: &Vec<SchemaField>) -> (same: bool)
    ensures
        same == (fields_model(left@) == fields_model(right@)),
    decreases left,
{
    proof {
        lemma_fields_model_index(left@);
        lemma_fields_model_index(right@);
    }
    if left.len() != right.len() {
        return false;
    }
    let mut i: usize = 0;
    while i < left.len()
        invariant
            i <= left.len(),
            left.len() == right.len(),
            forall|j: int| 0 <= j < i ==> left[j]@ == right[j]@,
            fields_model(left@).len() == left.len(),
            fields_model(right@).len() == right.len(),
            forall|j: int| 0 <= j < left.len() ==> #[trigger] fields_model(left@)[j] == left[j]@,
            forall|j: int| 0 <= j < right.len() ==> #[trigger] fields_model(right@)[j] == right[j]@,
        decreases left.len() - i,
    {
        let same_name = left[i].name == right[i].name;
        if !same_name || !types_equal(&left[i].types, &right[i].types) {
            proof {
                assert(fields_model(left@)[i as int] != fields_model(right@)[i as int]);
            }
            return false;
        }
        i += 1;
    }
    proof {
        assert(fields_model(left@) =~= fields_model(right@));
    }
    true
}

/// The encodings of a type list.
pub fn types_to_json(entries: &Vec<SchemaValueType>) -> (items: Vec<JsonValue>)
    ensures
        items_model(items@) == encode_types(types_model(entries@)),
    decreases entries,
{
    let ghost all = types_model(entries@);
    proof {
        lemma_types_model_index(entries@);
    }
    let mut items: Vec<JsonValue> = Vec::new();
    let mut i: usize = 0;
    while i < entries.len()
        invariant
            i <= entries.len(),
            all == types_model(entries@),
            all.len() == entries.len(),
            forall|j: int| 0 <= j < entries.len() ==> #[trigger] all[j] == entries[j]@,
            items_model(items@) == encode_types(all.take(i as int)),
        decreases entries.len() - i,
    {
        proof {
            assert(all.take(i + 1).drop_last() =~= all.take(i as int));
            assert(all.take(i + 1).last() == entries[i as int]@);
        }
        let item = entries[i].to_json();
        proof {
            assert(items@.push(item).drop_last() =~= items@);
        }
        items.push(item);
        i += 1;
    }
    proof {
        assert(all.take(entries.len() as int) =~= all);
    }
    items
}

/// One member for each field of a schema.
pub fn fields_to_json(fields: &Vec<SchemaField>) -> (members: Vec<JsonMember>)
    ensures
        members_model(members@) == encode_fields(fields_model(fields@)),
    decreases fields,
{
    let ghost all = fields_model(fields@);
    proof {
        lemma_fields_model_index(fields@);
    }
    let mut members: Vec<JsonMember> = Vec::new();
    let mut i: usize = 0;
    while i < fields.len()
        invariant
            i <= fields.len(),
            all == fields_model(fields@),
            all.len() == fields.len(),
            forall|j: int| 0 <= j < fields.len() ==> #[trigger] all[j] == fields[j]@,
            members_model(members@) == encode_fields(all.take(i as int)),
        decreases fields.len() - i,
    {
        proof {
            assert(all.take(i + 1).drop_last() =~= all.take(i as int));
            assert(all.take(i + 1).last() == fields[i as int]@);
        }
        let types = JsonValue::Array(types_to_json(&fields[i].types));
        let member = JsonMember {
            key: fields[i].name.clone(),
            value: single_member("types", types),
        };
        proof {
            assert(members@.push(member).drop_last() =~= members@);
        }
        members.push(member);
        i += 1;
    }
    proof {
        assert(all.take(fields.len() as int) =~= all);
    }
    members
}

/// The object with the one member `key`: `value`.
pub fn single_member(key: &str, value: JsonValue) -> (object: JsonValue)
    ensures
        object@ == JsonModel::Object(seq![MemberModel { key: key@, value: value@ }]),
{
    let mut members: Vec<JsonMember> = Vec::new();
    members.push(JsonMember { key: key.to_owned(), value });
    proof {
        assert(members@.drop_last() =~= Seq::<JsonMember>::empty());
        assert(members_model(Seq::<JsonMember>::empty()) =~= Seq::<MemberModel>::empty());
        assert(members_model(members@) =~= seq![MemberModel { key: key@, value: value@ }]);
    }
    JsonValue::Object(members)
}

impl SchemaValueType {
    /// The JSON encoding of this entry.
    pub fn to_json(&self) -> (json: JsonValue)
        ensures
            json@ == encode_type(self@),
        decreases self,
    {
        match self {
            SchemaValueType::Primitive(tag) => JsonValue::String(tag.clone()),
            SchemaValueType::String(least, greatest) => JsonValue::String(
                range_string(*least, *greatest),
            ),
            SchemaValueType::Array(items) => single_member(
                "ARRAY",
                JsonValue::Array(types_to_json(items)),
            ),
            SchemaValueType::Object(schema) => JsonValue::Object(fields_to_json(&schema.fields)),
        }
    }

    /// Structural equality: the same kind with the same content, nested
    /// schemas compared field by field in their order.
    pub fn equals(&self, other: &SchemaValueType) -> (same: bool)
        ensures
            same == (self@ == other@),
        decreases self,
    {
        match self {
            SchemaValueType::Primitive(tag) => match other {
                SchemaValueType::Primitive(other_tag) => *tag == *other_tag,
                _ => false,
            },
            SchemaValueType::String(least, greatest) => match other {
                SchemaValueType::String(other_least, other_greatest) => *least == *other_least
                    && *greatest == *other_greatest,
                _ => false,
            },
            SchemaValueType::Array(items) => match other {
                SchemaValueType::Array(other_items) => types_equal(items, other_items),
                _ => false,
            },
            SchemaValueType::Object(schema) => match other {
                SchemaValueType::Object(other_schema) => {
                    let same_name = schema.name == other_schema.name;
                    same_name && fields_equal(&schema.fields, &other_schema.fields)
                },
                _ => false,
            },
        }
    }
}

/// A copy of a type list.
pub fn clone_types(entries: &Vec<SchemaValueType>) -> (copies: Vec<SchemaValueType>)
    ensures
        types_model(copies@) == types_model(entries@),
    decreases entries,
{
    let mut copies: Vec<SchemaValueType> = Vec::new();
    let mut i: usize = 0;
    while i < entries.len()
        invariant
            i <= entries.len(),
            types_model(copies@) == types_model(entries@.take(i as int)),
        decreases entries.len() - i,
    {
        let copy = entries[i].clone();
        proof {
            assert(entries@.take(i + 1).drop_last() =~= entries@.take(i as int));
            assert(copies@.push(copy).drop_last() =~= copies@);
        }
        copies.push(copy);
        i += 1;
    }
    proof {
        assert(entries@.take(entries.len() as int) =~= entries@);
    }
    copies
}

/// A copy of a field list.
pub fn clone_fields(fields: &Vec<SchemaField>) -> (copies: Vec<SchemaField>)
    ensures
        fields_model(copies@) == fields_model(fields@),
    decreases fields,
{
    let mut copies: Vec<SchemaField> = Vec::new();
    let mut i: usize = 0;
    while i < fields.len()
        invariant
            i <= fields.len(),
            fields_model(copies@) == fields_model(fields@.take(i as int)),
        decreases fields.len() - i,
    {
        let copy = SchemaField {
            name: fields[i].name.clone(),
            types: clone_types(&fields[i].types),
        };
        proof {
            assert(fields@.take(i + 1).drop_last() =~= fields@.take(i as int));
            assert(copies@.push(copy).drop_last() =~= copies@);
        }
        copies.push(copy);
        i += 1;
    }
    proof {
        assert(fields@.take(fields.len() as int) =~= fields@);
    }
    copies
}

impl Clone for SchemaValueType {
    fn clone(&self) -> (copy: Self)
        ensures
            copy@ == self@,
        decreases self,
    {
        match self {
            SchemaValueType::Primitive(tag) => SchemaValueType::Primitive(tag.clone()),
            SchemaValueType::String(least, greatest) => SchemaValueType::String(*least, *greatest),
            SchemaValueType::Array(items) => SchemaValueType::Array(clone_types(items)),
            SchemaValueType::Object(schema) => SchemaValueType::Object(
                Schema { name: schema.name.clone(), fields: clone_fields(&schema.fields) },
            ),
        }
    }
}

impl PartialEq for SchemaValueType {
    fn eq(&self, other: &SchemaValueType) -> (same: bool) {
        self.equals(other)
    }
}

impl PartialEqSpecImpl for SchemaValueType {
    open spec fn obeys_eq_spec() -> bool {
        true
    }

    open spec fn eq_spec(&self, other: &SchemaValueType) -> bool {
        self@ == other@
    }
}

} // verus!
