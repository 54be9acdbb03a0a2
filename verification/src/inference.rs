//! What classifying a JSON value and inferring a schema from one are.

use vstd::prelude::*;
use vstd::utf8::encode_utf8;
use crate::json::{JsonModel, MemberModel};
use crate::model::{object_shapes, Member, RawValue, SchemaModel, Shape};
use crate::reduction::reduce;

verus! {

/// The classified value of `json`: its kind; for a string its length in
/// bytes of UTF-8; for an object the classified value of every member; for an
/// array that of every element, in order and with repetitions.
pub open spec fn classify(json: JsonModel) -> RawValue
    decreases json,
{
    match json {
        JsonModel::Null => RawValue::Null,
        JsonModel::Bool(_) => RawValue::Bool,
        JsonModel::Number(_) => RawValue::Number,
        JsonModel::String(text) => RawValue::Str(encode_utf8(text).len()),
        JsonModel::Array(items) => RawValue::Array(classify_all(items)),
        JsonModel::Object(members) => RawValue::Object(classify_members(members)),
    }
}

/// The classified values of `items`, in their order.
pub open spec fn classify_all(items: Seq<JsonModel>) -> Seq<RawValue>
    decreases items,
{
    if items.len() == 0 {
        Seq::empty()
    } else {
        classify_all(items.drop_last()).push(classify(items.last()))
    }
}

/// The shape of an object with these `members`.
pub open spec fn classify_members(members: Seq<MemberModel>) -> Shape
    decreases members,
{
    if members.len() == 0 {
        Seq::empty()
    } else {
        classify_members(members.drop_last()).push(
            Member { name: members.last().key, value: classify(members.last().value) },
        )
    }
}

/// The schema inferred from a document: of an object, the schema named
/// `root` of its one shape; of an array, the schema named `root` of the
/// shapes of those elements that are objects, the other elements left out;
/// of anything else, none.
pub open spec fn infer(json: JsonModel, merge: bool) -> Option<SchemaModel> {
    match json {
        JsonModel::Object(members) => Some(reduce("root"@, seq![classify_members(members)], merge)),
        JsonModel::Array(items) => Some(reduce("root"@, object_shapes(classify_all(items)), merge)),
        _ => None,
    }
}

} // verus!
