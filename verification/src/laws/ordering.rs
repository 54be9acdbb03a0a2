//! The order of the instances and the schema.

use vstd::prelude::*;
use crate::equivalence::{
    field_covered, field_covers, lemma_same_elements_same_types, lemma_same_types_concat,
    lemma_same_types_reflexive, lemma_same_types_single, same_elements, same_schema, same_types,
};
use crate::heights::{
    lemma_array_elements_height, lemma_object_shapes_below, lemma_values_named_height, shape_height,
    values_height,
};
use crate::laws::fields::{has_field, lemma_field_entries_index, lemma_schema_lookup};
use crate::membership::{
    is_other, lemma_all_members_contains, lemma_array_elements_contains, lemma_has_array_contains,
    lemma_object_shapes_contains, lemma_other_entries_contains, lemma_primitive_entries_contains,
    lemma_string_entries_same, lemma_string_lengths_contains, lemma_values_named_contains,
    some_array_holds, some_other_gives, some_primitive_gives, some_shape_holds,
};
use crate::model::{
    all_members, array_elements, field_names, has_array, has_member, is_primitive,
    lemma_field_names_contains, lemma_sorted_field_names, lemma_values_named_absent, object_shapes,
    primitive_entries, primitive_summary, sorted_field_names, string_entries, string_lengths,
    values_named, Member, RawValue, Shape, TypeSummary,
};
use crate::reduction::{
    array_entries, element_entries, group_entries, object_entries, other_entries, reduce, schema_of,
    summarize, type_list,
};
use crate::runs::{fingerprint, fingerprints, key_runs, lemma_trailing_run_is, runs_by_key};
use crate::text::Text;

verus! {

/// Whether all of `shapes` have one fingerprint.
pub open spec fn one_fingerprint(shapes: Seq<Shape>) -> bool {
    forall|i: int, j: int|
        0 <= i < shapes.len() && 0 <= j < shapes.len() ==> fingerprint(#[trigger] shapes[i])
            == fingerprint(#[trigger] shapes[j])
}

/// Whether grouping cannot part the objects among `values`: they have one
/// fingerprint, and the same holds of the values under each of their fields
/// and of the elements of the arrays among `values`, at every depth.
pub open spec fn steady_values(values: Seq<RawValue>) -> bool
    decreases values_height(values), 0nat, 0nat,
{
    let shapes = object_shapes(values);
    &&& one_fingerprint(shapes)
    &&& shapes.len() > 0 ==> {
        proof {
            lemma_object_shapes_below(values);
        }
        steady_members(all_members(shapes))
    }
    &&& has_array(values) ==> {
        proof {
            lemma_array_elements_height(values);
        }
        steady_values(array_elements(values))
    }
}

/// Whether the values under each field of `members` are steady.
pub open spec fn steady_members(members: Seq<Member>) -> bool
    decreases shape_height(members), 2nat, 0nat,
{
    steady_fields(members, field_names(members))
}

/// Whether the values that `members` hold under each of `names` are steady.
pub open spec fn steady_fields(members: Seq<Member>, names: Seq<Text>) -> bool
    decreases shape_height(members), 1nat, names.len(),
{
    if names.len() == 0 {
        true
    } else {
        proof {
            lemma_values_named_height(members, names.last());
        }
        steady_fields(members, names.drop_last()) && steady_values(
            values_named(members, names.last()),
        )
    }
}

/// Where the values under all names are steady, those under each are.
pub proof fn lemma_steady_fields_index(members: Seq<Member>, names: Seq<Text>, k: int)
    requires
        steady_fields(members, names),
        0 <= k < names.len(),
    ensures
        steady_values(values_named(members, names[k])),
    decreases names.len(),
{
    if k < names.len() - 1 {
        lemma_steady_fields_index(members, names.drop_last(), k);
    }
}

/// The values under every name are steady where the members are: under a
/// name that no member has there are none.
pub proof fn lemma_steady_members_field(members: Seq<Member>, field: Text)
    requires
        steady_members(members),
    ensures
        steady_values(values_named(members, field)),
{
    lemma_field_names_contains(members, field);
    if has_member(members, field) {
        let names = field_names(members);
        let k = choose|k: int| 0 <= k < names.len() && names[k] == field;
        lemma_steady_fields_index(members, names, k);
    } else {
        lemma_values_named_absent(members, field);
        let none = Seq::<RawValue>::empty();
        assert(object_shapes(none) =~= Seq::<Shape>::empty());
        assert(!has_array(none));
    }
}

/// Shapes with one fingerprint are one run.
pub proof fn lemma_one_fingerprint_one_run(shapes: Seq<Shape>)
    requires
        shapes.len() > 0,
        one_fingerprint(shapes),
    ensures
        key_runs(shapes) == seq![shapes],
{
    let keys = fingerprints(shapes);
    assert forall|i: int| 0 <= i < keys.len() implies #[trigger] keys[i] == keys.last() by {
        assert(fingerprint(shapes[i]) == fingerprint(shapes[shapes.len() - 1]));
    }
    lemma_trailing_run_is(keys, keys.len());
    assert(shapes.take(0) =~= Seq::<Shape>::empty());
    assert(runs_by_key(Seq::<Shape>::empty(), keys.take(0)) =~= Seq::<Seq<Shape>>::empty());
    assert(shapes.skip(0) =~= shapes);
    assert(key_runs(shapes) =~= seq![shapes]);
}

/// The entries for the objects among values depend only on which values
/// there are, where objects are merged or the values are steady.
pub proof fn lemma_object_entries_same(
    name: Text,
    left: Seq<RawValue>,
    right: Seq<RawValue>,
    merge: bool,
)
    requires
        same_elements(left, right),
        merge || steady_values(left),
    ensures
        same_types(object_entries(name, left, merge), object_entries(name, right, merge)),
    decreases values_height(left), 0nat,
{
    let a = object_shapes(left);
    let b = object_shapes(right);
    assert forall|shape: Shape| a.contains(shape) <==> b.contains(shape) by {
        lemma_object_shapes_contains(left, shape);
        lemma_object_shapes_contains(right, shape);
    }
    if a.len() > 0 {
        assert(a.contains(a[0]));
        assert(b.contains(a[0]));
        assert forall|member: Member| all_members(a).contains(member) <==> all_members(b).contains(
            member,
        ) by {
            lemma_all_members_contains(a, member);
            lemma_all_members_contains(b, member);
            if some_shape_holds(a, member) {
                let i = choose|i: int| 0 <= i < a.len() && (#[trigger] a[i]).contains(member);
                assert(a.contains(a[i]));
                let k = choose|k: int| 0 <= k < b.len() && b[k] == a[i];
                assert(b[k].contains(member));
            }
            if some_shape_holds(b, member) {
                let i = choose|i: int| 0 <= i < b.len() && (#[trigger] b[i]).contains(member);
                assert(b.contains(b[i]));
                let k = choose|k: int| 0 <= k < a.len() && a[k] == b[i];
                assert(a[k].contains(member));
            }
        }
        lemma_object_shapes_below(left);
        lemma_schema_same(name, all_members(a), all_members(b), merge);
        lemma_same_types_single(
            TypeSummary::Object(schema_of(name, all_members(a), merge)),
            TypeSummary::Object(schema_of(name, all_members(b), merge)),
        );
        if !merge {
            assert forall|i: int, j: int| 0 <= i < b.len() && 0 <= j < b.len() implies fingerprint(
                #[trigger] b[i],
            ) == fingerprint(#[trigger] b[j]) by {
                assert(b.contains(b[i]) && b.contains(b[j]));
                let m = choose|m: int| 0 <= m < a.len() && a[m] == b[i];
                let n = choose|n: int| 0 <= n < a.len() && a[n] == b[j];
                assert(fingerprint(a[m]) == fingerprint(a[n]));
            }
            lemma_one_fingerprint_one_run(a);
            lemma_one_fingerprint_one_run(b);
            lemma_group_entries_single(name, a);
            lemma_group_entries_single(name, b);
        }
    } else {
        if b.len() > 0 {
            assert(b.contains(b[0]));
        }
    }
}

/// One group gives one object entry: the schema of its shapes.
pub proof fn lemma_group_entries_single(name: Text, shapes: Seq<Shape>)
    ensures
        group_entries(name, seq![shapes]) == seq![
            TypeSummary::Object(schema_of(name, all_members(shapes), false)),
        ],
{
    let groups = seq![shapes];
    assert(groups.drop_last() =~= Seq::<Seq<Shape>>::empty());
    assert(group_entries(name, Seq::<Seq<Shape>>::empty()) =~= Seq::<TypeSummary>::empty());
    assert(group_entries(name, groups) =~= seq![
        TypeSummary::Object(schema_of(name, all_members(shapes), false)),
    ]);
}

/// What an array entry holds depends only on which elements there are,
/// where objects are merged or the elements are steady.
pub proof fn lemma_element_entries_same(
    name: Text,
    left: Seq<RawValue>,
    right: Seq<RawValue>,
    merge: bool,
)
    requires
        same_elements(left, right),
        merge || steady_values(left),
    ensures
        same_types(element_entries(name, left, merge), element_entries(name, right, merge)),
    decreases values_height(left), 1nat,
{
    lemma_object_entries_same(name, left, right, merge);
    assert forall|entry: TypeSummary|
        other_entries(left, merge).contains(entry) <==> other_entries(right, merge).contains(
            entry,
        ) by {
        lemma_other_entries_contains(left, merge, entry);
        lemma_other_entries_contains(right, merge, entry);
        if some_other_gives(left, merge, entry) {
            let j = choose|j: int|
                0 <= j < left.len() && is_other(#[trigger] left[j]) && summarize(left[j], merge)
                    == entry;
            assert(left.contains(left[j]));
            let k = choose|k: int| 0 <= k < right.len() && right[k] == left[j];
            assert(is_other(right[k]));
        }
        if some_other_gives(right, merge, entry) {
            let j = choose|j: int|
                0 <= j < right.len() && is_other(#[trigger] right[j]) && summarize(right[j], merge)
                    == entry;
            assert(right.contains(right[j]));
            let k = choose|k: int| 0 <= k < left.len() && left[k] == right[j];
            assert(is_other(left[k]));
        }
    }
    lemma_same_elements_same_types(other_entries(left, merge), other_entries(right, merge));
    lemma_strings_same(left, right);
    lemma_same_types_reflexive(string_entries(string_lengths(left)));
    lemma_same_types_concat(
        object_entries(name, left, merge),
        other_entries(left, merge),
        object_entries(name, right, merge),
        other_entries(right, merge),
    );
    lemma_same_types_concat(
        object_entries(name, left, merge) + other_entries(left, merge),
        string_entries(string_lengths(left)),
        object_entries(name, right, merge) + other_entries(right, merge),
        string_entries(string_lengths(right)),
    );
}

/// The string range depends only on which values there are.
pub proof fn lemma_strings_same(left: Seq<RawValue>, right: Seq<RawValue>)
    requires
        same_elements(left, right),
    ensures
        string_entries(string_lengths(left)) == string_entries(string_lengths(right)),
{
    assert forall|length: nat|
        string_lengths(left).contains(length) <==> string_lengths(right).contains(length) by {
        lemma_string_lengths_contains(left, length);
        lemma_string_lengths_contains(right, length);
    }
    lemma_string_entries_same(string_lengths(left), string_lengths(right));
}

/// The array entry depends only on which values there are, where objects
/// are merged or the values are steady.
pub proof fn lemma_array_entries_same(
    name: Text,
    left: Seq<RawValue>,
    right: Seq<RawValue>,
    merge: bool,
)
    requires
        same_elements(left, right),
        merge || steady_values(left),
    ensures
        same_types(array_entries(name, left, merge), array_entries(name, right, merge)),
    decreases values_height(left), 2nat,
{
    lemma_has_array_contains(left);
    lemma_has_array_contains(right);
    if has_array(left) {
        let j = choose|j: int| 0 <= j < left.len() && (#[trigger] left[j]) is Array;
        assert(left.contains(left[j]));
        let k = choose|k: int| 0 <= k < right.len() && right[k] == left[j];
        assert(right[k] is Array);
    }
    if has_array(right) {
        let j = choose|j: int| 0 <= j < right.len() && (#[trigger] right[j]) is Array;
        assert(right.contains(right[j]));
        let k = choose|k: int| 0 <= k < left.len() && left[k] == right[j];
        assert(left[k] is Array);
    }
    if has_array(left) {
        let a = array_elements(left);
        let b = array_elements(right);
        assert forall|element: RawValue| a.contains(element) <==> b.contains(element) by {
            lemma_array_elements_contains(left, element);
            lemma_array_elements_contains(right, element);
            if some_array_holds(left, element) {
                let j = choose|j: int|
                    0 <= j < left.len() && (#[trigger] left[j]) is Array
                        && left[j]->Array_0.contains(element);
                assert(left.contains(left[j]));
                let k = choose|k: int| 0 <= k < right.len() && right[k] == left[j];
                assert(right[k] is Array && right[k]->Array_0.contains(element));
            }
            if some_array_holds(right, element) {
                let j = choose|j: int|
                    0 <= j < right.len() && (#[trigger] right[j]) is Array
                        && right[j]->Array_0.contains(element);
                assert(right.contains(right[j]));
                let k = choose|k: int| 0 <= k < left.len() && left[k] == right[j];
                assert(left[k] is Array && left[k]->Array_0.contains(element));
            }
        }
        lemma_array_elements_height(left);
        lemma_element_entries_same(name, a, b, merge);
        lemma_same_types_single(
            TypeSummary::Array(element_entries(name, a, merge)),
            TypeSummary::Array(element_entries(name, b, merge)),
        );
    } else {
        lemma_same_types_reflexive(Seq::<TypeSummary>::empty());
    }
}

/// The type list of a field depends only on which values were observed
/// for it, where objects are merged or the values are steady.
pub proof fn lemma_type_list_same(
    name: Text,
    left: Seq<RawValue>,
    right: Seq<RawValue>,
    merge: bool,
)
    requires
        same_elements(left, right),
        merge || steady_values(left),
    ensures
        same_types(type_list(name, left, merge), type_list(name, right, merge)),
    decreases values_height(left), 3nat,
{
    lemma_strings_same(left, right);
    lemma_same_types_reflexive(string_entries(string_lengths(left)));
    lemma_object_entries_same(name, left, right, merge);
    assert forall|entry: TypeSummary|
        primitive_entries(left).contains(entry) <==> primitive_entries(right).contains(entry) by {
        lemma_primitive_entries_contains(left, entry);
        lemma_primitive_entries_contains(right, entry);
        if some_primitive_gives(left, entry) {
            let j = choose|j: int|
                0 <= j < left.len() && is_primitive(#[trigger] left[j]) && primitive_summary(
                    left[j],
                ) == entry;
            assert(left.contains(left[j]));
            let k = choose|k: int| 0 <= k < right.len() && right[k] == left[j];
            assert(is_primitive(right[k]));
        }
        if some_primitive_gives(right, entry) {
            let j = choose|j: int|
                0 <= j < right.len() && is_primitive(#[trigger] right[j]) && primitive_summary(
                    right[j],
                ) == entry;
            assert(right.contains(right[j]));
            let k = choose|k: int| 0 <= k < left.len() && left[k] == right[j];
            assert(is_primitive(left[k]));
        }
    }
    lemma_same_elements_same_types(primitive_entries(left), primitive_entries(right));
    lemma_array_entries_same(name, left, right, merge);
    let strings_left = string_entries(string_lengths(left));
    let strings_right = string_entries(string_lengths(right));
    lemma_same_types_concat(
        strings_left,
        object_entries(name, left, merge),
        strings_right,
        object_entries(name, right, merge),
    );
    lemma_same_types_concat(
        strings_left + object_entries(name, left, merge),
        primitive_entries(left),
        strings_right + object_entries(name, right, merge),
        primitive_entries(right),
    );
    lemma_same_types_concat(
        strings_left + object_entries(name, left, merge) + primitive_entries(left),
        array_entries(name, left, merge),
        strings_right + object_entries(name, right, merge) + primitive_entries(right),
        array_entries(name, right, merge),
    );
}

/// A schema depends only on which members were observed, not on how often
/// or in which order, where objects are merged or the members are steady.
pub proof fn lemma_schema_same(name: Text, left: Seq<Member>, right: Seq<Member>, merge: bool)
    requires
        same_elements(left, right),
        merge || steady_members(left),
    ensures
        same_schema(schema_of(name, left, merge), schema_of(name, right, merge)),
    decreases shape_height(left), 5nat,
{
    let a = schema_of(name, left, merge);
    let b = schema_of(name, right, merge);
    lemma_field_entries_index(left, sorted_field_names(left), merge);
    lemma_field_entries_index(right, sorted_field_names(right), merge);
    lemma_sorted_field_names(left);
    lemma_sorted_field_names(right);
    assert forall|i: int| 0 <= i < a.fields.len() implies field_covered(
        b.fields,
        #[trigger] a.fields[i],
    ) by {
        let field = a.fields[i].name;
        assert(sorted_field_names(left).contains(sorted_field_names(left)[i]));
        lemma_field_names_contains(left, field);
        lemma_field_same(name, left, right, field, merge);
        let j = choose|j: int| 0 <= j < b.fields.len() && (#[trigger] b.fields[j]).name == field;
        assert(same_types(a.fields[i].types, b.fields[j].types));
    }
    assert forall|j: int| 0 <= j < b.fields.len() implies field_covers(
        a.fields,
        #[trigger] b.fields[j],
    ) by {
        let field = b.fields[j].name;
        assert(sorted_field_names(right).contains(sorted_field_names(right)[j]));
        lemma_field_names_contains(right, field);
        lemma_has_member_same(right, left, field);
        lemma_field_same(name, left, right, field, merge);
        lemma_field_names_contains(left, field);
        let i = choose|i: int|
            0 <= i < sorted_field_names(left).len() && sorted_field_names(left)[i] == field;
        assert(a.fields[i].name == field);
        assert(same_types(a.fields[i].types, b.fields[j].types));
    }
}

/// The same members hold the same names.
pub proof fn lemma_has_member_same(left: Seq<Member>, right: Seq<Member>, field: Text)
    requires
        same_elements(left, right),
        has_member(left, field),
    ensures
        has_member(right, field),
{
    let j = choose|j: int| 0 <= j < left.len() && (#[trigger] left[j]).name == field;
    assert(left.contains(left[j]));
    let k = choose|k: int| 0 <= k < right.len() && right[k] == left[j];
    assert(right[k].name == field);
}

/// The same members give a field the same types, where objects are merged
/// or the members are steady.
pub proof fn lemma_field_same(
    name: Text,
    left: Seq<Member>,
    right: Seq<Member>,
    field: Text,
    merge: bool,
)
    requires
        same_elements(left, right),
        merge || steady_members(left),
    ensures
        same_types(
            type_list(field, values_named(left, field), merge),
            type_list(field, values_named(right, field), merge),
        ),
        has_member(left, field) ==> has_field(schema_of(name, right, merge), field),
    decreases shape_height(left), 4nat,
{
    let a = values_named(left, field);
    let b = values_named(right, field);
    assert forall|value: RawValue| a.contains(value) <==> b.contains(value) by {
        lemma_values_named_contains(left, field, value);
        lemma_values_named_contains(right, field, value);
    }
    lemma_values_named_height(left, field);
    if !merge {
        lemma_steady_members_field(left, field);
    }
    lemma_type_list_same(field, a, b, merge);
    if has_member(left, field) {
        lemma_has_member_same(left, right, field);
        lemma_schema_lookup(name, right, merge, field);
    }
}

/// Two reductions of the same shapes in different orders give schemas that
/// map the same field names to the same type sets: every field of one is a
/// field of the other, and their type lists are equal as sets, nested
/// schemas compared in the same way. This holds where objects are merged.
/// Where they are not, the order decides which objects are neighbours and so
/// what the runs are; it then holds where the shapes are steady, that is,
/// where the objects that meet under one field have one fingerprint.
pub proof fn law_instance_order_is_ignored(
    name: Text,
    first: Seq<Shape>,
    second: Seq<Shape>,
    merge: bool,
)
    requires
        first.to_multiset() == second.to_multiset(),
        merge || steady_members(all_members(first)),
    ensures
        same_schema(reduce(name, first, merge), reduce(name, second, merge)),
{
    first.to_multiset_ensures();
    second.to_multiset_ensures();
    assert forall|member: Member|
        all_members(first).contains(member) <==> all_members(second).contains(member) by {
        lemma_all_members_contains(first, member);
        lemma_all_members_contains(second, member);
        if some_shape_holds(first, member) {
            let i = choose|i: int| 0 <= i < first.len() && (#[trigger] first[i]).contains(member);
            assert(first.contains(first[i]));
            assert(first.to_multiset().count(first[i]) > 0);
            assert(second.contains(first[i]));
            let k = choose|k: int| 0 <= k < second.len() && second[k] == first[i];
            assert(second[k].contains(member));
        }
        if some_shape_holds(second, member) {
            let i = choose|i: int| 0 <= i < second.len() && (#[trigger] second[i]).contains(member);
            assert(second.contains(second[i]));
            assert(second.to_multiset().count(second[i]) > 0);
            assert(first.contains(second[i]));
            let k = choose|k: int| 0 <= k < first.len() && first[k] == second[i];
            assert(first[k].contains(member));
        }
    }
    lemma_schema_same(name, all_members(first), all_members(second), merge);
}

} // verus!
