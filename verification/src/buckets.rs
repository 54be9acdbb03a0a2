//! Gathering the observations of every field and reducing the simple kinds.

use vstd::prelude::*;
use crate::fingerprint::shapes_model;
use crate::model::{
    all_members, array_elements, field_names, has_array, is_primitive, lemma_field_names_distinct,
    lemma_values_named_absent, max_nat, max_of, min_nat, min_of, object_shapes, primitive_entries,
    primitive_summary, push_unique, string_entries, string_lengths, values_named, Member, RawValue,
};
use crate::schema::members_of;
use crate::schema_object::SchemaObject;
use crate::schema_value_type::{lemma_types_model_index, types_model, SchemaValueType};
use crate::text::Text;
use crate::value_type::{
    keys_model, lemma_keys_model_index, lemma_values_model_index, values_model, ValueType,
};

verus! {

/// The values observed under one field name.
pub struct FieldObservations {
    pub name: String,
    pub values: Vec<ValueType>,
}

/// The field names of `observed`, in its order.
pub open spec fn observed_names(observed: Seq<FieldObservations>) -> Seq<Text> {
    Seq::new(observed.len(), |k: int| observed[k].name@)
}

/// The model of two lists put together is their models put together.
pub proof fn lemma_types_model_concat(left: Seq<SchemaValueType>, right: Seq<SchemaValueType>)
    ensures
        types_model(left + right) == types_model(left) + types_model(right),
{
    lemma_types_model_index(left);
    lemma_types_model_index(right);
    lemma_types_model_index(left + right);
    assert(types_model(left + right) =~= types_model(left) + types_model(right));
}

/// The model of a list with one entry more is its model with that entry
/// more.
pub proof fn lemma_types_model_push(list: Seq<SchemaValueType>, entry: SchemaValueType)
    ensures
        types_model(list.push(entry)) == types_model(list).push(entry@),
{
    assert(list.push(entry).drop_last() =~= list);
}

/// Where `observed` holds the field `name`, if it does.
pub fn find_field(observed: &Vec<FieldObservations>, name: &String) -> (found: Option<usize>)
    ensures
        match found {
            Some(k) => k < observed.len() && observed[k as int].name@ == name@,
            None => forall|k: int| 0 <= k < observed.len() ==> observed[k].name@ != name@,
        },
{
    let mut k: usize = 0;
    while k < observed.len()
        invariant
            k <= observed.len(),
            forall|j: int| 0 <= j < k ==> observed[j].name@ != name@,
        decreases observed.len() - k,
    {
        if observed[k].name == *name {
            return Some(k);
        }
        k += 1;
    }
    None
}

/// Whether `list` holds an entry equal to `entry`.
pub fn contains_type(list: &Vec<SchemaValueType>, entry: &SchemaValueType) -> (found: bool)
    ensures
        found == types_model(list@).contains(entry@),
{
    proof {
        lemma_types_model_index(list@);
    }
    let mut i: usize = 0;
    while i < list.len()
        invariant
            i <= list.len(),
            types_model(list@).len() == list.len(),
            forall|j: int| 0 <= j < list.len() ==> #[trigger] types_model(list@)[j] == list[j]@,
            forall|j: int| 0 <= j < i ==> types_model(list@)[j] != entry@,
        decreases list.len() - i,
    {
        if list[i].equals(entry) {
            proof {
                assert(types_model(list@)[i as int] == entry@);
            }
            return true;
        }
        i += 1;
    }
    false
}

/// Puts `entry` at the end of `list`, unless `list` holds an equal one.
pub fn push_unique_type(list: &mut Vec<SchemaValueType>, entry: SchemaValueType)
    ensures
        types_model(final(list)@) == push_unique(types_model(old(list)@), entry@),
{
    if !contains_type(list, &entry) {
        proof {
            lemma_types_model_push(list@, entry);
        }
        list.push(entry);
    }
}

/// The entry for a null, a boolean or a number; nothing for another value.
pub fn primitive_type(value: &ValueType) -> (entry: Option<SchemaValueType>)
    ensures
        is_primitive(value@) ==> entry is Some && entry->Some_0@ == primitive_summary(value@),
        !is_primitive(value@) ==> entry is None,
{
    match value {
        ValueType::Null => Some(SchemaValueType::Primitive("NULL".to_owned())),
        ValueType::Bool => Some(SchemaValueType::Primitive("BOOL".to_owned())),
        ValueType::Number => Some(SchemaValueType::Primitive("NUMBER".to_owned())),
        _ => None,
    }
}

/// The string range of the strings among `values`, if there are any.
pub fn reduce_strings(values: &Vec<ValueType>) -> (entries: Vec<SchemaValueType>)
    ensures
        types_model(entries@) == string_entries(string_lengths(values_model(values@))),
{
    let ghost all = values_model(values@);
    proof {
        lemma_values_model_index(values@);
    }
    let mut found = false;
    let mut least: usize = 0;
    let mut greatest: usize = 0;
    let mut i: usize = 0;
    while i < values.len()
        invariant
            i <= values.len(),
            all.len() == values.len(),
            forall|j: int| 0 <= j < values.len() ==> #[trigger] all[j] == values[j]@,
            found == (string_lengths(all.take(i as int)).len() > 0),
            found ==> least == min_of(string_lengths(all.take(i as int))) && greatest == max_of(
                string_lengths(all.take(i as int)),
            ),
        decreases values.len() - i,
    {
        proof {
            assert(all.take(i + 1).drop_last() =~= all.take(i as int));
            assert(all.take(i + 1).last() == values[i as int]@);
            let before = string_lengths(all.take(i as int));
            if values[i as int]@ is Str {
                let after = before.push(values[i as int]@->Str_0);
                assert(after.drop_last() =~= before);
                assert(string_lengths(all.take(i + 1)) == after);
                assert(min_of(Seq::<nat>::empty()) == 0);
                assert(max_of(Seq::<nat>::empty()) == 0);
                if before.len() == 0 {
                    assert(before =~= Seq::<nat>::empty());
                    assert(min_of(after) == after[0]);
                    assert(max_of(after) == after[0]);
                } else {
                    assert(min_of(after) == min_nat(min_of(before), after.last()));
                    assert(max_of(after) == max_nat(max_of(before), after.last()));
                }
            } else {
                assert(string_lengths(all.take(i + 1)) == before);
            }
        }
        match &values[i] {
            ValueType::String(length) => {
                if !found {
                    found = true;
                    least = *length;
                    greatest = *length;
                } else {
                    if *length < least {
                        least = *length;
                    }
                    if *length > greatest {
                        greatest = *length;
                    }
                }
            },
            _ => {},
        }
        i += 1;
    }
    proof {
        assert(all.take(values.len() as int) =~= all);
    }
    let mut entries: Vec<SchemaValueType> = Vec::new();
    if found {
        proof {
            lemma_types_model_push(entries@, SchemaValueType::String(least, greatest));
        }
        entries.push(SchemaValueType::String(least, greatest));
    }
    entries
}

/// One entry for each kind of primitive among `values`.
pub fn reduce_primitives(values: &Vec<ValueType>) -> (entries: Vec<SchemaValueType>)
    ensures
        types_model(entries@) == primitive_entries(values_model(values@)),
{
    let ghost all = values_model(values@);
    proof {
        lemma_values_model_index(values@);
    }
    let mut entries: Vec<SchemaValueType> = Vec::new();
    let mut i: usize = 0;
    while i < values.len()
        invariant
            i <= values.len(),
            all.len() == values.len(),
            forall|j: int| 0 <= j < values.len() ==> #[trigger] all[j] == values[j]@,
            types_model(entries@) == primitive_entries(all.take(i as int)),
        decreases values.len() - i,
    {
        proof {
            assert(all.take(i + 1).drop_last() =~= all.take(i as int));
            assert(all.take(i + 1).last() == values[i as int]@);
        }
        match primitive_type(&values[i]) {
            Some(entry) => {
                push_unique_type(&mut entries, entry);
            },
            None => {},
        }
        i += 1;
    }
    proof {
        assert(all.take(values.len() as int) =~= all);
    }
    entries
}

/// Copies of the objects among `values`, in order.
pub fn collect_objects(values: &Vec<ValueType>) -> (objects: Vec<SchemaObject>)
    ensures
        shapes_model(objects@) == object_shapes(values_model(values@)),
{
    let ghost all = values_model(values@);
    proof {
        lemma_values_model_index(values@);
    }
    let mut objects: Vec<SchemaObject> = Vec::new();
    let mut i: usize = 0;
    while i < values.len()
        invariant
            i <= values.len(),
            all.len() == values.len(),
            forall|j: int| 0 <= j < values.len() ==> #[trigger] all[j] == values[j]@,
            shapes_model(objects@) == object_shapes(all.take(i as int)),
        decreases values.len() - i,
    {
        proof {
            assert(all.take(i + 1).drop_last() =~= all.take(i as int));
            assert(all.take(i + 1).last() == values[i as int]@);
        }
        match &values[i] {
            ValueType::Object(object) => {
                let copy = object.clone();
                proof {
                    assert(shapes_model(objects@.push(copy)) =~= shapes_model(objects@).push(
                        copy@,
                    ));
                }
                objects.push(copy);
            },
            _ => {},
        }
        i += 1;
    }
    proof {
        assert(all.take(values.len() as int) =~= all);
    }
    objects
}

/// Puts copies of `items` at the end of `elements`.
pub fn append_copies(elements: &mut Vec<ValueType>, items: &Vec<ValueType>)
    ensures
        values_model(final(elements)@) == values_model(old(elements)@) + values_model(items@),
{
    let ghost before = elements@;
    let mut k: usize = 0;
    while k < items.len()
        invariant
            k <= items.len(),
            elements@.len() == before.len() + k,
            forall|n: int| 0 <= n < before.len() ==> elements[n] == before[n],
            forall|n: int| 0 <= n < k ==> elements[before.len() + n]@ == items[n]@,
        decreases items.len() - k,
    {
        let copy = items[k].clone();
        elements.push(copy);
        k += 1;
    }
    proof {
        lemma_values_model_index(elements@);
        lemma_values_model_index(before);
        lemma_values_model_index(items@);
        assert(values_model(elements@) =~= values_model(before) + values_model(items@));
    }
}

/// Whether an array is among `values`, and copies of the elements of all
/// those arrays, one array after the other.
pub fn collect_elements(values: &Vec<ValueType>) -> (found: (bool, Vec<ValueType>))
    ensures
        found.0 == has_array(values_model(values@)),
        values_model(found.1@) == array_elements(values_model(values@)),
{
    let ghost all = values_model(values@);
    proof {
        lemma_values_model_index(values@);
    }
    let mut any = false;
    let mut elements: Vec<ValueType> = Vec::new();
    let mut i: usize = 0;
    while i < values.len()
        invariant
            i <= values.len(),
            all.len() == values.len(),
            forall|j: int| 0 <= j < values.len() ==> #[trigger] all[j] == values[j]@,
            any == has_array(all.take(i as int)),
            values_model(elements@) == array_elements(all.take(i as int)),
        decreases values.len() - i,
    {
        proof {
            assert(all.take(i + 1).drop_last() =~= all.take(i as int));
            assert(all.take(i + 1).last() == values[i as int]@);
        }
        match &values[i] {
            ValueType::Array(items) => {
                any = true;
                append_copies(&mut elements, items);
            },
            _ => {},
        }
        i += 1;
    }
    proof {
        assert(all.take(values.len() as int) =~= all);
    }
    (any, elements)
}

/// The observations of every field of `objects`: the field names where
/// they first occur, each with copies of the values found under it.
pub fn observe_fields(objects: &Vec<SchemaObject>) -> (observed: Vec<FieldObservations>)
    ensures
        observed_names(observed@) == field_names(members_of(objects@)),
        forall|k: int|
            0 <= k < observed.len() ==> values_model(#[trigger] observed[k].values@)
                == values_named(members_of(objects@), observed[k].name@),
{
    let ghost shapes = shapes_model(objects@);
    let ghost mut seen: Seq<Member> = Seq::empty();
    let mut observed: Vec<FieldObservations> = Vec::new();
    let mut i: usize = 0;
    while i < objects.len()
        invariant
            i <= objects.len(),
            shapes == shapes_model(objects@),
            seen == all_members(shapes.take(i as int)),
            observed_names(observed@) == field_names(seen),
            forall|k: int|
                0 <= k < observed.len() ==> values_model(#[trigger] observed[k].values@)
                    == values_named(seen, observed[k].name@),
        decreases objects.len() - i,
    {
        let object = &objects[i];
        let ghost shape = keys_model(object.keys@);
        let ghost before = seen;
        proof {
            lemma_keys_model_index(object.keys@);
        }
        let mut j: usize = 0;
        while j < object.keys.len()
            invariant
                j <= object.keys.len(),
                shape == keys_model(object.keys@),
                shape.len() == object.keys.len(),
                forall|n: int|
                    0 <= n < object.keys.len() ==> #[trigger] shape[n] == object.keys[n]@,
                seen == before + shape.take(j as int),
                observed_names(observed@) == field_names(seen),
                forall|k: int|
                    0 <= k < observed.len() ==> values_model(#[trigger] observed[k].values@)
                        == values_named(seen, observed[k].name@),
            decreases object.keys.len() - j,
        {
            let key = &object.keys[j];
            let ghost member = key@;
            let ghost next = seen.push(member);
            let copy = key.v_type.clone();
            proof {
                assert(next.drop_last() =~= seen);
                assert(next =~= before + shape.take(j + 1));
            }
            match find_field(&observed, &key.id) {
                Some(k) => {
                    proof {
                        assert(observed_names(observed@)[k as int] == member.name);
                        assert(field_names(seen).contains(member.name));
                        lemma_field_names_distinct(seen);
                        assert(observed[k as int].values@.push(copy).drop_last()
                            =~= observed[k as int].values@);
                    }
                    let ghost old_observed = observed@;
                    observed[k].values.push(copy);
                    proof {
                        assert(observed_names(observed@) =~= observed_names(old_observed));
                        assert forall|n: int| 0 <= n < observed.len() implies values_model(
                            #[trigger] observed[n].values@,
                        ) == values_named(next, observed[n].name@) by {
                            if n != k {
                                assert(observed[n] == old_observed[n]);
                                assert(observed_names(old_observed)[n] != observed_names(
                                    old_observed,
                                )[k as int]);
                            }
                        }
                    }
                },
                None => {
                    let mut values: Vec<ValueType> = Vec::new();
                    values.push(copy);
                    proof {
                        assert forall|n: int| 0 <= n < observed.len() implies observed_names(
                            observed@,
                        )[n] != member.name by {}
                        assert(!field_names(seen).contains(member.name));
                        lemma_values_named_absent(seen, member.name);
                        assert(values@.drop_last() =~= Seq::<ValueType>::empty());
                        assert(values_model(Seq::<ValueType>::empty()) =~= Seq::<
                            RawValue,
                        >::empty());
                        assert(values_model(values@) =~= seq![member.value]);
                        assert(values_named(next, member.name) =~= seq![member.value]);
                    }
                    let ghost old_observed = observed@;
                    observed.push(FieldObservations { name: key.id.clone(), values });
                    proof {
                        assert(observed_names(observed@) =~= observed_names(old_observed).push(
                            member.name,
                        ));
                        assert forall|n: int| 0 <= n < observed.len() implies values_model(
                            #[trigger] observed[n].values@,
                        ) == values_named(next, observed[n].name@) by {
                            if n < old_observed.len() {
                                assert(observed[n] == old_observed[n]);
                                assert(observed_names(old_observed)[n] != member.name);
                            }
                        }
                    }
                },
            }
            proof {
                seen = next;
            }
            j += 1;
        }
        proof {
            assert(shape.take(object.keys.len() as int) =~= shape);
            assert(shapes.take(i + 1).drop_last() =~= shapes.take(i as int));
            assert(shapes.take(i + 1).last() == shape);
        }
        i += 1;
    }
    proof {
        assert(shapes.take(objects.len() as int) =~= shapes);
    }
    observed
}

} // verus!
