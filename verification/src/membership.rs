//! Which elements the sequences of the model hold.

use vstd::prelude::*;
use crate::equivalence::same_elements;
use crate::model::{
    all_members, array_elements, has_array, is_primitive, max_of, min_of, object_shapes,
    primitive_entries, primitive_summary, push_unique, string_entries, string_lengths, values_named,
    Member, RawValue, Shape, TypeSummary,
};
use crate::reduction::{other_entries, summarize};
use crate::text::Text;

verus! {

/// Whether one of `shapes` holds `member`.
pub open spec fn some_shape_holds(shapes: Seq<Shape>, member: Member) -> bool {
    exists|i: int| 0 <= i < shapes.len() && (#[trigger] shapes[i]).contains(member)
}

/// Whether one of the arrays among `values` holds `element`.
pub open spec fn some_array_holds(values: Seq<RawValue>, element: RawValue) -> bool {
    exists|j: int|
        0 <= j < values.len() && (#[trigger] values[j]) is Array && values[j]->Array_0.contains(
            element,
        )
}

/// Whether `entry` is the summary of a primitive among `values`.
pub open spec fn some_primitive_gives(values: Seq<RawValue>, entry: TypeSummary) -> bool {
    exists|j: int|
        0 <= j < values.len() && is_primitive(#[trigger] values[j]) && primitive_summary(values[j])
            == entry
}

/// Whether `value` is neither a string nor an object.
pub open spec fn is_other(value: RawValue) -> bool {
    !(value is Str) && !(value is Object)
}

/// Whether `entry` is the summary of one of `values` that is neither a
/// string nor an object.
pub open spec fn some_other_gives(values: Seq<RawValue>, merge: bool, entry: TypeSummary) -> bool {
    exists|j: int|
        0 <= j < values.len() && is_other(#[trigger] values[j]) && summarize(values[j], merge)
            == entry
}

/// A list with one element more holds what it held and that element.
pub proof fn lemma_push_contains<T>(list: Seq<T>, last: T, x: T)
    ensures
        list.push(last).contains(x) <==> (list.contains(x) || x == last),
{
    let longer = list.push(last);
    if list.contains(x) {
        let i = choose|i: int| 0 <= i < list.len() && list[i] == x;
        assert(longer[i] == x);
    }
    if x == last {
        assert(longer[list.len() as int] == x);
    }
    if longer.contains(x) {
        let i = choose|i: int| 0 <= i < longer.len() && longer[i] == x;
        if i < list.len() {
            assert(list[i] == x);
        }
    }
}

/// Two lists together hold what either holds.
pub proof fn lemma_concat_contains<T>(left: Seq<T>, right: Seq<T>, x: T)
    ensures
        (left + right).contains(x) <==> (left.contains(x) || right.contains(x)),
{
    let both = left + right;
    if left.contains(x) {
        let i = choose|i: int| 0 <= i < left.len() && left[i] == x;
        assert(both[i] == x);
    }
    if right.contains(x) {
        let i = choose|i: int| 0 <= i < right.len() && right[i] == x;
        assert(both[left.len() + i] == x);
    }
    if both.contains(x) {
        let i = choose|i: int| 0 <= i < both.len() && both[i] == x;
        if i < left.len() {
            assert(left[i] == x);
        } else {
            assert(right[i - left.len()] == x);
        }
    }
}

/// A list holds what it holds without its last element, and that element.
pub proof fn lemma_drop_last_contains<T>(list: Seq<T>, x: T)
    requires
        list.len() > 0,
    ensures
        list.contains(x) <==> (list.drop_last().contains(x) || x == list.last()),
{
    assert(list =~= list.drop_last().push(list.last()));
    lemma_push_contains(list.drop_last(), list.last(), x);
}

/// A value is observed under a name where a member of that name holds it.
pub proof fn lemma_values_named_contains(members: Seq<Member>, field: Text, value: RawValue)
    ensures
        values_named(members, field).contains(value) <==> members.contains(
            Member { name: field, value },
        ),
    decreases members.len(),
{
    if members.len() > 0 {
        lemma_values_named_contains(members.drop_last(), field, value);
        lemma_drop_last_contains(members, Member { name: field, value });
        lemma_push_contains(values_named(members.drop_last(), field), members.last().value, value);
    }
}

/// A length is among the string lengths where a string of that length is
/// among the values.
pub proof fn lemma_string_lengths_contains(values: Seq<RawValue>, length: nat)
    ensures
        string_lengths(values).contains(length) <==> values.contains(RawValue::Str(length)),
    decreases values.len(),
{
    if values.len() > 0 {
        lemma_string_lengths_contains(values.drop_last(), length);
        lemma_drop_last_contains(values, RawValue::Str(length));
        if values.last() is Str {
            lemma_push_contains(
                string_lengths(values.drop_last()),
                values.last()->Str_0,
                length,
            );
        }
    }
}

/// A shape is among the object shapes where an object of that shape is
/// among the values.
pub proof fn lemma_object_shapes_contains(values: Seq<RawValue>, shape: Shape)
    ensures
        object_shapes(values).contains(shape) <==> values.contains(RawValue::Object(shape)),
    decreases values.len(),
{
    if values.len() > 0 {
        lemma_object_shapes_contains(values.drop_last(), shape);
        lemma_drop_last_contains(values, RawValue::Object(shape));
        if values.last() is Object {
            lemma_push_contains(
                object_shapes(values.drop_last()),
                values.last()->Object_0,
                shape,
            );
        }
    }
}

/// A member is among all members where one of the shapes holds it.
pub proof fn lemma_all_members_contains(shapes: Seq<Shape>, member: Member)
    ensures
        all_members(shapes).contains(member) <==> some_shape_holds(shapes, member),
    decreases shapes.len(),
{
    if shapes.len() > 0 {
        let front = shapes.drop_last();
        lemma_all_members_contains(front, member);
        lemma_concat_contains(all_members(front), shapes.last(), member);
        if some_shape_holds(front, member) {
            let i = choose|i: int| 0 <= i < front.len() && (#[trigger] front[i]).contains(member);
            assert(shapes[i] == front[i]);
        }
        if shapes.last().contains(member) {
            assert(shapes[shapes.len() - 1].contains(member));
        }
        if some_shape_holds(shapes, member) {
            let i = choose|i: int| 0 <= i < shapes.len() && (#[trigger] shapes[i]).contains(member);
            if i < front.len() {
                assert(front[i] == shapes[i]);
            }
        }
    }
}

/// A value is among the array elements where one of the arrays holds it.
pub proof fn lemma_array_elements_contains(values: Seq<RawValue>, element: RawValue)
    ensures
        array_elements(values).contains(element) <==> some_array_holds(values, element),
    decreases values.len(),
{
    if values.len() > 0 {
        let front = values.drop_last();
        lemma_array_elements_contains(front, element);
        if values.last() is Array {
            lemma_concat_contains(array_elements(front), values.last()->Array_0, element);
            if values.last()->Array_0.contains(element) {
                assert(values[values.len() - 1] is Array);
            }
        }
        if some_array_holds(front, element) {
            let j = choose|j: int|
                0 <= j < front.len() && (#[trigger] front[j]) is Array
                    && front[j]->Array_0.contains(element);
            assert(values[j] == front[j]);
        }
        if some_array_holds(values, element) {
            let j = choose|j: int|
                0 <= j < values.len() && (#[trigger] values[j]) is Array
                    && values[j]->Array_0.contains(element);
            if j < front.len() {
                assert(front[j] == values[j]);
            }
        }
    }
}

/// There is an array among the values where one of them is an array.
pub proof fn lemma_has_array_contains(values: Seq<RawValue>)
    ensures
        has_array(values) <==> exists|j: int|
            0 <= j < values.len() && (#[trigger] values[j]) is Array,
    decreases values.len(),
{
    if values.len() > 0 {
        let front = values.drop_last();
        lemma_has_array_contains(front);
        if has_array(front) {
            let j = choose|j: int| 0 <= j < front.len() && (#[trigger] front[j]) is Array;
            assert(values[j] == front[j]);
        }
        if values.last() is Array {
            assert(values[values.len() - 1] is Array);
        }
        if exists|j: int| 0 <= j < values.len() && (#[trigger] values[j]) is Array {
            let j = choose|j: int| 0 <= j < values.len() && (#[trigger] values[j]) is Array;
            if j < front.len() {
                assert(front[j] == values[j]);
            }
        }
    }
}

/// A list with an entry added once holds what it held and that entry.
pub proof fn lemma_push_unique_contains(list: Seq<TypeSummary>, last: TypeSummary, x: TypeSummary)
    ensures
        push_unique(list, last).contains(x) <==> (list.contains(x) || x == last),
{
    lemma_push_contains(list, last, x);
}

/// An entry is among the primitive entries where a primitive among the
/// values gives it.
pub proof fn lemma_primitive_entries_contains(values: Seq<RawValue>, entry: TypeSummary)
    ensures
        primitive_entries(values).contains(entry) <==> some_primitive_gives(values, entry),
    decreases values.len(),
{
    if values.len() > 0 {
        let front = values.drop_last();
        lemma_primitive_entries_contains(front, entry);
        if is_primitive(values.last()) {
            lemma_push_unique_contains(
                primitive_entries(front),
                primitive_summary(values.last()),
                entry,
            );
            if primitive_summary(values.last()) == entry {
                assert(is_primitive(values[values.len() - 1]));
            }
        }
        if some_primitive_gives(front, entry) {
            let j = choose|j: int|
                0 <= j < front.len() && is_primitive(#[trigger] front[j]) && primitive_summary(
                    front[j],
                ) == entry;
            assert(values[j] == front[j]);
        }
        if some_primitive_gives(values, entry) {
            let j = choose|j: int|
                0 <= j < values.len() && is_primitive(#[trigger] values[j]) && primitive_summary(
                    values[j],
                ) == entry;
            if j < front.len() {
                assert(front[j] == values[j]);
            }
        }
    }
}

/// An entry is among the summaries of the other elements where one of
/// them gives it.
pub proof fn lemma_other_entries_contains(values: Seq<RawValue>, merge: bool, entry: TypeSummary)
    ensures
        other_entries(values, merge).contains(entry) <==> some_other_gives(values, merge, entry),
    decreases values.len(),
{
    if values.len() > 0 {
        let front = values.drop_last();
        lemma_other_entries_contains(front, merge, entry);
        if is_other(values.last()) {
            lemma_push_unique_contains(
                other_entries(front, merge),
                summarize(values.last(), merge),
                entry,
            );
            if summarize(values.last(), merge) == entry {
                assert(is_other(values[values.len() - 1]));
            }
        }
        if some_other_gives(front, merge, entry) {
            let j = choose|j: int|
                0 <= j < front.len() && is_other(#[trigger] front[j]) && summarize(front[j], merge)
                    == entry;
            assert(values[j] == front[j]);
        }
        if some_other_gives(values, merge, entry) {
            let j = choose|j: int|
                0 <= j < values.len() && is_other(#[trigger] values[j]) && summarize(
                    values[j],
                    merge,
                ) == entry;
            if j < front.len() {
                assert(front[j] == values[j]);
            }
        }
    }
}

/// `min_of` is a length of the list and none is less; `max_of` is one and
/// none is greater.
pub proof fn lemma_extremes(lengths: Seq<nat>)
    requires
        lengths.len() > 0,
    ensures
        lengths.contains(min_of(lengths)),
        lengths.contains(max_of(lengths)),
        forall|i: int| 0 <= i < lengths.len() ==> min_of(lengths) <= #[trigger] lengths[i],
        forall|i: int| 0 <= i < lengths.len() ==> #[trigger] lengths[i] <= max_of(lengths),
    decreases lengths.len(),
{
    if lengths.len() == 1 {
        assert(lengths[0] == lengths.last());
        assert(lengths.drop_last() =~= Seq::<nat>::empty());
        assert(max_of(Seq::<nat>::empty()) == 0);
        assert(lengths.contains(lengths[0]));
    } else {
        let front = lengths.drop_last();
        lemma_extremes(front);
        lemma_drop_last_contains(lengths, min_of(lengths));
        lemma_drop_last_contains(lengths, max_of(lengths));
        assert forall|i: int| 0 <= i < lengths.len() implies min_of(lengths)
            <= #[trigger] lengths[i] && lengths[i] <= max_of(lengths) by {
            if i < front.len() {
                assert(front[i] == lengths[i]);
            }
        }
    }
}

/// The string range depends only on which lengths were seen.
pub proof fn lemma_string_entries_same(left: Seq<nat>, right: Seq<nat>)
    requires
        same_elements(left, right),
    ensures
        string_entries(left) == string_entries(right),
{
    if left.len() > 0 {
        assert(left.contains(left[0]));
        assert(right.contains(left[0]));
        lemma_extremes(left);
        lemma_extremes(right);
        assert(right.contains(min_of(left)) && left.contains(min_of(right)));
        assert(right.contains(max_of(left)) && left.contains(max_of(right)));
        let a = choose|i: int| 0 <= i < right.len() && right[i] == min_of(left);
        let b = choose|i: int| 0 <= i < left.len() && left[i] == min_of(right);
        let c = choose|i: int| 0 <= i < right.len() && right[i] == max_of(left);
        let d = choose|i: int| 0 <= i < left.len() && left[i] == max_of(right);
        assert(min_of(right) <= right[a] && min_of(left) <= left[b]);
        assert(right[c] <= max_of(right) && left[d] <= max_of(left));
    } else if right.len() > 0 {
        assert(right.contains(right[0]));
        assert(left.contains(right[0]));
    }
}

} // verus!
