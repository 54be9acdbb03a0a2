//! One field of one classified object instance.

use vstd::prelude::*;
use crate::model::Member;
use crate::value_type::{value_model, ValueType};

verus! {

/// A field name with the classified value found under it.
#[derive(Debug)]
pub struct SchemaObjectKey {
    pub id: String,
    pub v_type: ValueType,
}

impl View for SchemaObjectKey {
    type V = Member;

    open spec fn view(&self) -> Member {
        Member { name: self.id@, value: value_model(self.v_type) }
    }
}

impl Clone for SchemaObjectKey {
    fn clone(&self) -> (copy: Self)
        ensures
            copy@ == self@,
        decreases self,
    {
        SchemaObjectKey { id: self.id.clone(), v_type: self.v_type.clone() }
    }
}

} // verus!
