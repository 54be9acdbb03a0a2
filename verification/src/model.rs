//! The values that contracts speak of: classified JSON values, type
//! summaries and schemas, and the sequences that the reduction takes from
//! its observations.

use vstd::prelude::*;
use vstd::relations::sorted_by;
use crate::text::{lemma_text_order_total, text_le, text_order, Text};

verus! {

/// A classified JSON value: its kind, and for the kinds that have one, the
/// part of its content that the reduction reads.
pub enum RawValue {
    Null,
    Bool,
    Number,
    /// A string, by its length in bytes of UTF-8.
    Str(nat),
    /// An object, by the shape of this one instance.
    Object(Seq<Member>),
    /// An array, element by element, in array order.
    Array(Seq<RawValue>),
}

/// One field of one object instance.
pub struct Member {
    pub name: Text,
    pub value: RawValue,
}

/// The fields of one object instance, in the order in which it lists them.
pub type Shape = Seq<Member>;

/// One entry of a field's type list.
pub enum TypeSummary {
    /// `NULL`, `BOOL` or `NUMBER`.
    Primitive(Text),
    /// The least and the greatest length among the strings seen.
    StringRange(nat, nat),
    /// The summaries of the elements seen in arrays.
    Array(Seq<TypeSummary>),
    /// The schema of the objects seen.
    Object(SchemaModel),
}

/// One field of a schema with its type list.
pub struct FieldModel {
    pub name: Text,
    pub types: Seq<TypeSummary>,
}

/// A reduced schema: a descriptive name and the fields, each field once, in
/// ascending order of their names.
pub struct SchemaModel {
    pub name: Text,
    pub fields: Seq<FieldModel>,
}

/// Whether `tag` is one of the three tags of primitives.
pub open spec fn is_primitive_tag(tag: Text) -> bool {
    tag == "NULL"@ || tag == "BOOL"@ || tag == "NUMBER"@
}

/// Whether an entry is well formed: a primitive has one of the three tags,
/// a string range does not end before it begins, and what an array or an
/// object entry holds is well formed.
pub open spec fn well_formed_entry(entry: TypeSummary) -> bool
    decreases entry, 0nat,
{
    match entry {
        TypeSummary::Primitive(tag) => is_primitive_tag(tag),
        TypeSummary::StringRange(least, greatest) => least <= greatest,
        TypeSummary::Array(items) => well_formed_types(items),
        TypeSummary::Object(schema) => well_formed(schema),
    }
}

/// Whether a list of entries is well formed: each entry is, and no entry
/// but an object entry occurs twice.
pub open spec fn well_formed_types(list: Seq<TypeSummary>) -> bool
    decreases list, 1nat,
{
    &&& forall|i: int| 0 <= i < list.len() ==> well_formed_entry(#[trigger] list[i])
    &&& forall|i: int, j: int|
        0 <= i < j < list.len() && list[i] == list[j] ==> (#[trigger] list[i]) is Object
            && (#[trigger] list[j]) is Object
}

/// Whether a schema is well formed: its field names ascend, so that none
/// occurs twice, and each field has a type list that is well formed and not
/// empty.
pub open spec fn well_formed(schema: SchemaModel) -> bool
    decreases schema, 2nat,
{
    &&& forall|i: int, j: int|
        0 <= i < j < schema.fields.len() ==> (#[trigger] schema.fields[i]).name
            != (#[trigger] schema.fields[j]).name && text_le(
            schema.fields[i].name,
            schema.fields[j].name,
        )
    &&& forall|k: int|
        0 <= k < schema.fields.len() ==> (#[trigger] schema.fields[k]).types.len() > 0
            && well_formed_types(schema.fields[k].types)
}

/// The greater of two numbers.
pub open spec fn max_nat(a: nat, b: nat) -> nat {
    if a >= b { a } else { b }
}

/// The lesser of two numbers.
pub open spec fn min_nat(a: nat, b: nat) -> nat {
    if a <= b { a } else { b }
}

/// The members of all `shapes`, one shape after the other.
pub open spec fn all_members(shapes: Seq<Shape>) -> Seq<Member>
    decreases shapes.len(),
{
    if shapes.len() == 0 {
        Seq::empty()
    } else {
        all_members(shapes.drop_last()) + shapes.last()
    }
}

/// Whether `shape` holds a member named `field`.
pub open spec fn has_member(shape: Shape, field: Text) -> bool {
    exists|j: int| 0 <= j < shape.len() && (#[trigger] shape[j]).name == field
}

/// The distinct field names of `members`, each where it first occurs.
pub open spec fn field_names(members: Seq<Member>) -> Seq<Text>
    decreases members.len(),
{
    if members.len() == 0 {
        Seq::empty()
    } else {
        let rest = field_names(members.drop_last());
        if rest.contains(members.last().name) {
            rest
        } else {
            rest.push(members.last().name)
        }
    }
}

/// The distinct field names of `members` in ascending order.
pub open spec fn sorted_field_names(members: Seq<Member>) -> Seq<Text> {
    field_names(members).sort_by(text_order())
}

/// The values that `members` hold under the name `field`, in order: the
/// observations of that field.
pub open spec fn values_named(members: Seq<Member>, field: Text) -> Seq<RawValue>
    decreases members.len(),
{
    if members.len() == 0 {
        Seq::empty()
    } else {
        let rest = values_named(members.drop_last(), field);
        if members.last().name == field {
            rest.push(members.last().value)
        } else {
            rest
        }
    }
}

/// The lengths of the strings among `values`, in order.
pub open spec fn string_lengths(values: Seq<RawValue>) -> Seq<nat>
    decreases values.len(),
{
    if values.len() == 0 {
        Seq::empty()
    } else {
        let rest = string_lengths(values.drop_last());
        match values.last() {
            RawValue::Str(length) => rest.push(length),
            _ => rest,
        }
    }
}

/// The shapes of the objects among `values`, in order.
pub open spec fn object_shapes(values: Seq<RawValue>) -> Seq<Shape>
    decreases values.len(),
{
    if values.len() == 0 {
        Seq::empty()
    } else {
        let rest = object_shapes(values.drop_last());
        match values.last() {
            RawValue::Object(members) => rest.push(members),
            _ => rest,
        }
    }
}

/// Whether an array is among `values`.
pub open spec fn has_array(values: Seq<RawValue>) -> bool
    decreases values.len(),
{
    if values.len() == 0 {
        false
    } else {
        values.last() is Array || has_array(values.drop_last())
    }
}

/// The elements of the arrays among `values`, one array after the other.
pub open spec fn array_elements(values: Seq<RawValue>) -> Seq<RawValue>
    decreases values.len(),
{
    if values.len() == 0 {
        Seq::empty()
    } else {
        let rest = array_elements(values.drop_last());
        match values.last() {
            RawValue::Array(items) => rest + items,
            _ => rest,
        }
    }
}

/// The least of `lengths`; 0 where there is none.
pub open spec fn min_of(lengths: Seq<nat>) -> nat
    decreases lengths.len(),
{
    if lengths.len() == 0 {
        0
    } else if lengths.len() == 1 {
        lengths[0]
    } else {
        min_nat(min_of(lengths.drop_last()), lengths.last())
    }
}

/// The greatest of `lengths`; 0 where there is none.
pub open spec fn max_of(lengths: Seq<nat>) -> nat
    decreases lengths.len(),
{
    if lengths.len() == 0 {
        0
    } else {
        max_nat(max_of(lengths.drop_last()), lengths.last())
    }
}

/// The one string range that stands for all of `lengths`, if there are any.
pub open spec fn string_entries(lengths: Seq<nat>) -> Seq<TypeSummary> {
    if lengths.len() == 0 {
        Seq::empty()
    } else {
        seq![TypeSummary::StringRange(min_of(lengths), max_of(lengths))]
    }
}

/// `list` with `entry` at its end, unless `list` holds it already.
pub open spec fn push_unique(list: Seq<TypeSummary>, entry: TypeSummary) -> Seq<TypeSummary> {
    if list.contains(entry) {
        list
    } else {
        list.push(entry)
    }
}

/// The summary of a null, a boolean or a number.
pub open spec fn primitive_summary(value: RawValue) -> TypeSummary {
    match value {
        RawValue::Null => TypeSummary::Primitive("NULL"@),
        RawValue::Bool => TypeSummary::Primitive("BOOL"@),
        _ => TypeSummary::Primitive("NUMBER"@),
    }
}

/// Whether `value` is a null, a boolean or a number.
pub open spec fn is_primitive(value: RawValue) -> bool {
    value is Null || value is Bool || value is Number
}

/// One entry for each kind of primitive among `values`, in the order in
/// which the kinds first occur.
pub open spec fn primitive_entries(values: Seq<RawValue>) -> Seq<TypeSummary>
    decreases values.len(),
{
    if values.len() == 0 {
        Seq::empty()
    } else {
        let rest = primitive_entries(values.drop_last());
        if is_primitive(values.last()) {
            push_unique(rest, primitive_summary(values.last()))
        } else {
            rest
        }
    }
}

/// A field name that `field_names` does not list has no observations.
pub proof fn lemma_values_named_absent(members: Seq<Member>, field: Text)
    requires
        !field_names(members).contains(field),
    ensures
        values_named(members, field) == Seq::<RawValue>::empty(),
    decreases members.len(),
{
    if members.len() > 0 {
        let rest = field_names(members.drop_last());
        if rest.contains(members.last().name) {
        } else {
            assert forall|i: int| 0 <= i < rest.len() implies rest[i] != field by {
                assert(rest.push(members.last().name)[i] == rest[i]);
            }
            assert(rest.push(members.last().name)[rest.len() as int] == members.last().name);
        }
        lemma_values_named_absent(members.drop_last(), field);
    }
}

/// `field_names` lists no name twice.
pub proof fn lemma_field_names_distinct(members: Seq<Member>)
    ensures
        forall|i: int, j: int|
            0 <= i < j < field_names(members).len() ==> field_names(members)[i] != field_names(
                members,
            )[j],
    decreases members.len(),
{
    if members.len() > 0 {
        lemma_field_names_distinct(members.drop_last());
        let rest = field_names(members.drop_last());
        let names = field_names(members);
        assert forall|i: int, j: int| 0 <= i < j < names.len() implies names[i] != names[j] by {
            if j < rest.len() {
                assert(names[i] == rest[i] && names[j] == rest[j]);
            } else {
                assert(names[i] == rest[i]);
                assert(!rest.contains(members.last().name));
            }
        }
    }
}

/// The names that `field_names` lists are the names of the members.
pub proof fn lemma_field_names_contains(members: Seq<Member>, field: Text)
    ensures
        field_names(members).contains(field) <==> has_member(members, field),
    decreases members.len(),
{
    if members.len() > 0 {
        let front = members.drop_last();
        let rest = field_names(front);
        lemma_field_names_contains(front, field);
        if has_member(front, field) {
            let j = choose|j: int| 0 <= j < front.len() && (#[trigger] front[j]).name == field;
            assert(members[j] == front[j]);
        }
        if has_member(members, field) {
            let j = choose|j: int| 0 <= j < members.len() && (#[trigger] members[j]).name == field;
            if j < front.len() {
                assert(front[j] == members[j]);
            }
        }
        if rest.contains(members.last().name) {
        } else {
            let names = rest.push(members.last().name);
            assert(names[rest.len() as int] == members.last().name);
            if rest.contains(field) {
                let i = choose|i: int| 0 <= i < rest.len() && rest[i] == field;
                assert(names[i] == field);
            }
            if names.contains(field) {
                let i = choose|i: int| 0 <= i < names.len() && names[i] == field;
                if i < rest.len() {
                    assert(rest[i] == field);
                }
            }
        }
        if members.last().name == field {
            assert(members[members.len() - 1].name == field);
        }
    }
}

/// The sorted field names are the field names: the same names, each once,
/// in ascending order.
pub proof fn lemma_sorted_field_names(members: Seq<Member>)
    ensures
        sorted_field_names(members).len() == field_names(members).len(),
        forall|field: Text|
            sorted_field_names(members).contains(field) <==> field_names(members).contains(field),
        sorted_field_names(members).no_duplicates(),
        sorted_by(sorted_field_names(members), text_order()),
        sorted_field_names(members).to_multiset() == field_names(members).to_multiset(),
{
    let names = field_names(members);
    let sorted = sorted_field_names(members);
    lemma_text_order_total();
    names.lemma_sort_by_ensures(text_order());
    names.to_multiset_ensures();
    sorted.to_multiset_ensures();
    assert forall|field: Text| sorted.contains(field) <==> names.contains(field) by {
        assert(sorted.contains(field) <==> sorted.to_multiset().count(field) > 0);
        assert(names.contains(field) <==> names.to_multiset().count(field) > 0);
    }
    lemma_field_names_distinct(members);
    assert(names.no_duplicates());
    names.lemma_multiset_has_no_duplicates();
    sorted.lemma_multiset_has_no_duplicates_conv();
}

} // verus!
