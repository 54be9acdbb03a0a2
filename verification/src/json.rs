//! JSON values as the inference reads and writes them.

use vstd::prelude::*;
use vstd::std_specs::cmp::PartialEqSpecImpl;
use crate::text::Text;

verus! {

/// A JSON value. A number is held as its literal text, which the inference
/// never reads; an object holds its members in document order.
#[derive(Debug)]
pub enum JsonValue {
    Null,
    Bool(bool),
    Number(String),
    String(String),
    Array(Vec<JsonValue>),
    Object(Vec<JsonMember>),
}

/// One member of a JSON object.
#[derive(Debug)]
pub struct JsonMember {
    pub key: String,
    pub value: JsonValue,
}

/// A JSON value as contracts see it.
pub enum JsonModel {
    Null,
    Bool(bool),
    Number(Text),
    String(Text),
    Array(Seq<JsonModel>),
    Object(Seq<MemberModel>),
}

/// One member of a JSON object as contracts see it.
pub struct MemberModel {
    pub key: Text,
    pub value: JsonModel,
}

/// What `json` is to the contracts.
pub open spec fn json_model(json: JsonValue) -> JsonModel
    decreases json,
{
    match json {
        JsonValue::Null => JsonModel::Null,
        JsonValue::Bool(flag) => JsonModel::Bool(flag),
        JsonValue::Number(literal) => JsonModel::Number(literal@),
        JsonValue::String(text) => JsonModel::String(text@),
        JsonValue::Array(items) => JsonModel::Array(items_model(items@)),
        JsonValue::Object(members) => JsonModel::Object(members_model(members@)),
    }
}

/// The values that `items` stand for, in their order.
pub open spec fn items_model(items: Seq<JsonValue>) -> Seq<JsonModel>
    decreases items,
{
    if items.len() == 0 {
        Seq::empty()
    } else {
        items_model(items.drop_last()).push(json_model(items.last()))
    }
}

/// The members that `members` stand for, in their order.
pub open spec fn members_model(members: Seq<JsonMember>) -> Seq<MemberModel>
    decreases members,
{
    if members.len() == 0 {
        Seq::empty()
    } else {
        members_model(members.drop_last()).push(
            MemberModel { key: members.last().key@, value: json_model(members.last().value) },
        )
    }
}

impl View for JsonValue {
    type V = JsonModel;

    open spec fn view(&self) -> JsonModel {
        json_model(*self)
    }
}

impl View for JsonMember {
    type V = MemberModel;

    open spec fn view(&self) -> MemberModel {
        MemberModel { key: self.key@, value: json_model(self.value) }
    }
}

/// The model of a list of values is, place by place, the model of each.
pub proof fn lemma_items_model_index(items: Seq<JsonValue>)
    ensures
        items_model(items).len() == items.len(),
        forall|i: int| 0 <= i < items.len() ==> #[trigger] items_model(items)[i] == items[i]@,
    decreases items.len(),
{
    if items.len() > 0 {
        lemma_items_model_index(items.drop_last());
    }
}

/// The model of a list of members is, place by place, the model of each.
pub proof fn lemma_members_model_index(members: Seq<JsonMember>)
    ensures
        members_model(members).len() == members.len(),
        forall|i: int|
            0 <= i < members.len() ==> #[trigger] members_model(members)[i] == members[i]@,
    decreases members.len(),
{
    if members.len() > 0 {
        lemma_members_model_index(members.drop_last());
    }
}

/// Whether two lists of values stand for the same values in the same order.
pub fn items_equal(left: &Vec<JsonValue>, right: &Vec<JsonValue>) -> (same: bool)
    ensures
        same == (items_model(left@) == items_model(right@)),
    decreases left,
{
    proof {
        lemma_items_model_index(left@);
        lemma_items_model_index(right@);
    }
    if left.len() != right.len() {
        return false;
    }
    let mut i: usize = 0;
    while i < left.len()
        invariant
            i <= left.len(),
            left.len() == right.len(),
            forall|j: int| 0 <= j < i ==> left[j]@ == right[j]@,
            items_model(left@).len() == left.len(),
            items_model(right@).len() == right.len(),
            forall|j: int| 0 <= j < left.len() ==> #[trigger] items_model(left@)[j] == left[j]@,
            forall|j: int| 0 <= j < right.len() ==> #[trigger] items_model(right@)[j] == right[j]@,
        decreases left.len() - i,
    {
        if !left[i].equals(&right[i]) {
            proof {
                assert(items_model(left@)[i as int] != items_model(right@)[i as int]);
            }
            return false;
        }
        i += 1;
    }
    proof {
        assert(items_model(left@) =~= items_model(right@));
    }
    true
}

/// Whether two lists of members stand for the same members in the same
/// order.
pub fn members_equal(left: &Vec<JsonMember>, right: &Vec<JsonMember>) -> (same: bool)
    ensures
        same == (members_model(left@) == members_model(right@)),
    decreases left,
{
    proof {
        lemma_members_model_index(left@);
        lemma_members_model_index(right@);
    }
    if left.len() != right.len() {
        return false;
    }
    let mut i: usize = 0;
    while i < left.len()
        invariant
            i <= left.len(),
            left.len() == right.len(),
            forall|j: int| 0 <= j < i ==> left[j]@ == right[j]@,
            members_model(left@).len() == left.len(),
            members_model(right@).len() == right.len(),
            forall|j: int| 0 <= j < left.len() ==> #[trigger] members_model(left@)[j] == left[j]@,
            forall|j: int|
                0 <= j < right.len() ==> #[trigger] members_model(right@)[j] == right[j]@,
        decreases left.len() - i,
    {
        let same_key = left[i].key == right[i].key;
        if !same_key || !left[i].value.equals(&right[i].value) {
            proof {
                assert(members_model(left@)[i as int] != members_model(right@)[i as int]);
            }
            return false;
        }
        i += 1;
    }
    proof {
        assert(members_model(left@) =~= members_model(right@));
    }
    true
}

impl JsonValue {
    /// Structural equality: the same kind with the same content, the
    /// members of objects compared in their order.
    pub fn equals(&self, other: &JsonValue) -> (same: bool)
        ensures
            same == (self@ == other@),
        decreases self,
    {
        match self {
            JsonValue::Null => match other {
                JsonValue::Null => true,
                _ => false,
            },
            JsonValue::Bool(flag) => match other {
                JsonValue::Bool(other_flag) => *flag == *other_flag,
                _ => false,
            },
            JsonValue::Number(literal) => match other {
                JsonValue::Number(other_literal) => *literal == *other_literal,
                _ => false,
            },
            JsonValue::String(text) => match other {
                JsonValue::String(other_text) => *text == *other_text,
                _ => false,
            },
            JsonValue::Array(items) => match other {
                JsonValue::Array(other_items) => items_equal(items, other_items),
                _ => false,
            },
            JsonValue::Object(members) => match other {
                JsonValue::Object(other_members) => members_equal(members, other_members),
                _ => false,
            },
        }
    }
}

impl PartialEq for JsonValue {
    fn eq(&self, other: &JsonValue) -> (same: bool) {
        self.equals(other)
    }
}

impl PartialEqSpecImpl for JsonValue {
    open spec fn obeys_eq_spec() -> bool {
        true
    }

    open spec fn eq_spec(&self, other: &JsonValue) -> bool {
        self@ == other@
    }
}

} // verus!
