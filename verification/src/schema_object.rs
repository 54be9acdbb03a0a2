//! The shape of one JSON object instance.

use vstd::prelude::*;
use crate::inference::classify_members;
use crate::json::JsonValue;
use crate::model::Shape;
use crate::schema_object_key::SchemaObjectKey;
use crate::value_type::{keys_model, ValueType};

verus! {

/// The fields of one object instance, each with its classified value, in
/// the order in which the instance lists them.
#[derive(Debug)]
pub struct SchemaObject {
    pub keys: Vec<SchemaObjectKey>,
}

impl View for SchemaObject {
    type V = Shape;

    open spec fn view(&self) -> Shape {
        keys_model(self.keys@)
    }
}

impl SchemaObject {
    /// The shape of the object `json`.
    pub fn from_json(json: &JsonValue) -> (object: SchemaObject)
        requires
            json@ is Object,
        ensures
            object@ == classify_members(json@->Object_0),
    {
        match json {
            JsonValue::Object(members) => SchemaObject {
                keys: ValueType::keys_from_members(members),
            },
            _ => SchemaObject { keys: Vec::new() },
        }
    }
}

impl Clone for SchemaObject {
    fn clone(&self) -> (copy: Self)
        ensures
            copy@ == self@,
        decreases self,
    {
        let mut copies: Vec<SchemaObjectKey> = Vec::new();
        let mut i: usize = 0;
        while i < self.keys.len()
            invariant
                i <= self.keys.len(),
                keys_model(copies@) == keys_model(self.keys@.take(i as int)),
            decreases self.keys.len() - i,
        {
            let copy = self.keys[i].clone();
            proof {
                assert(self.keys@.take(i + 1).drop_last() =~= self.keys@.take(i as int));
                assert(copies@.push(copy).drop_last() =~= copies@);
            }
            copies.push(copy);
            i += 1;
        }
        proof {
            assert(self.keys@.take(self.keys.len() as int) =~= self.keys@);
        }
        SchemaObject { keys: copies }
    }
}

} // verus!
