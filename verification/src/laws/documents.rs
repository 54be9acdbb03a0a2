//! String ranges and whole documents.

use vstd::prelude::*;
use crate::inference::{classify, classify_all, infer};
use crate::json::JsonModel;
use crate::membership::{lemma_extremes, lemma_string_lengths_contains};
use crate::model::{
    max_of, min_of, object_shapes, string_entries, string_lengths, RawValue, TypeSummary,
};

verus! {

/// The string range spans exactly the lengths seen: its bounds are the
/// length of some string each, and no string is shorter or longer.
pub proof fn law_string_range_spans_lengths(values: Seq<RawValue>)
    requires
        string_lengths(values).len() > 0,
    ensures
        string_entries(string_lengths(values)) == seq![
            TypeSummary::StringRange(
                min_of(string_lengths(values)),
                max_of(string_lengths(values)),
            ),
        ],
        values.contains(RawValue::Str(min_of(string_lengths(values)))),
        values.contains(RawValue::Str(max_of(string_lengths(values)))),
        forall|i: int|
            0 <= i < values.len() && (#[trigger] values[i]) is Str ==> min_of(
                string_lengths(values),
            ) <= values[i]->Str_0 <= max_of(string_lengths(values)),
{
    let lengths = string_lengths(values);
    lemma_extremes(lengths);
    lemma_string_lengths_contains(values, min_of(lengths));
    lemma_string_lengths_contains(values, max_of(lengths));
    assert forall|i: int| 0 <= i < values.len() && (#[trigger] values[i]) is Str implies min_of(
        lengths,
    ) <= values[i]->Str_0 <= max_of(lengths) by {
        let length = values[i]->Str_0;
        assert(values.contains(values[i]));
        lemma_string_lengths_contains(values, length);
        let k = choose|k: int| 0 <= k < lengths.len() && lengths[k] == length;
        assert(min_of(lengths) <= lengths[k] <= max_of(lengths));
    }
}

/// Those of `items` that are objects, in their order.
pub open spec fn only_objects(items: Seq<JsonModel>) -> Seq<JsonModel>
    decreases items.len(),
{
    if items.len() == 0 {
        Seq::empty()
    } else {
        let rest = only_objects(items.drop_last());
        if items.last() is Object {
            rest.push(items.last())
        } else {
            rest
        }
    }
}

/// Classifying one item more adds its classified value at the end.
pub proof fn lemma_classify_all_push(items: Seq<JsonModel>, item: JsonModel)
    ensures
        classify_all(items.push(item)) == classify_all(items).push(classify(item)),
{
    assert(items.push(item).drop_last() =~= items);
}

/// The items that are no objects add no shape.
pub proof fn lemma_only_objects_shapes(items: Seq<JsonModel>)
    ensures
        object_shapes(classify_all(only_objects(items))) == object_shapes(classify_all(items)),
    decreases items.len(),
{
    if items.len() > 0 {
        let front = items.drop_last();
        lemma_only_objects_shapes(front);
        let classified = classify_all(front);
        assert(classified.push(classify(items.last())).drop_last() =~= classified);
        if items.last() is Object {
            let kept = only_objects(front);
            lemma_classify_all_push(kept, items.last());
            assert(classify_all(kept).push(classify(items.last())).drop_last() =~= classify_all(
                kept,
            ));
        }
    }
}

/// The elements of a top-level array that are no objects play no part: the
/// array without them gives the same schema.
pub proof fn law_other_elements_are_dropped(items: Seq<JsonModel>, merge: bool)
    ensures
        infer(JsonModel::Array(items), merge) == infer(
            JsonModel::Array(only_objects(items)),
            merge,
        ),
{
    lemma_only_objects_shapes(items);
}

/// A document that is neither an object nor an array gives no schema, and
/// every object and every array gives one.
pub proof fn law_only_objects_and_arrays_are_inferred(json: JsonModel, merge: bool)
    ensures
        infer(json, merge) is Some <==> (json is Object || json is Array),
{
}

} // verus!
