//! Without merging, object entries are counted by runs.

use vstd::prelude::*;
use crate::laws::fields::lemma_field_entries_index;
use crate::model::{
    all_members, object_shapes, sorted_field_names, primitive_entries, primitive_summary,
    string_entries, string_lengths, values_named, RawValue, Shape, TypeSummary,
};
use crate::reduction::{array_entries, group_entries, object_entries, reduce, type_list};
use crate::runs::{
    is_run_partition, lemma_key_runs_partition, fingerprints, key_runs, lemma_trailing_run_bounds,
    runs_by_key, trailing_run,
};
use crate::text::Text;

verus! {

/// How many of `entries` are object entries.
pub open spec fn object_count(entries: Seq<TypeSummary>) -> nat
    decreases entries.len(),
{
    if entries.len() == 0 {
        0
    } else {
        object_count(entries.drop_last()) + if entries.last() is Object {
            1nat
        } else {
            0nat
        }
    }
}

/// How many runs `keys` has: the positions at which a key differs from the
/// one before it, the first position among them.
pub open spec fn run_count(keys: Seq<u64>) -> nat
    decreases keys.len(),
{
    if keys.len() == 0 {
        0
    } else if keys.len() == 1 {
        1
    } else {
        run_count(keys.drop_last()) + if keys[keys.len() - 2] != keys[keys.len() - 1] {
            1nat
        } else {
            0nat
        }
    }
}

/// Two lists together hold the object entries of both.
pub proof fn lemma_object_count_concat(left: Seq<TypeSummary>, right: Seq<TypeSummary>)
    ensures
        object_count(left + right) == object_count(left) + object_count(right),
    decreases right.len(),
{
    if right.len() == 0 {
        assert(left + right =~= left);
    } else {
        assert((left + right).drop_last() =~= left + right.drop_last());
        lemma_object_count_concat(left, right.drop_last());
    }
}

/// No primitive entry is an object entry.
pub proof fn lemma_primitive_entries_hold_no_object(values: Seq<RawValue>)
    ensures
        object_count(primitive_entries(values)) == 0,
    decreases values.len(),
{
    if values.len() > 0 {
        lemma_primitive_entries_hold_no_object(values.drop_last());
        let rest = primitive_entries(values.drop_last());
        assert(rest.push(primitive_summary(values.last())).drop_last() =~= rest);
    }
}

/// Each group gives one entry, and it is an object entry.
pub proof fn lemma_group_entries_are_objects(name: Text, groups: Seq<Seq<Shape>>)
    ensures
        group_entries(name, groups).len() == groups.len(),
        object_count(group_entries(name, groups)) == groups.len(),
    decreases groups.len(),
{
    if groups.len() > 0 {
        lemma_group_entries_are_objects(name, groups.drop_last());
        let rest = group_entries(name, groups.drop_last());
        assert(group_entries(name, groups).drop_last() =~= rest);
    }
}

/// Cutting the last run off takes one run away.
pub proof fn lemma_run_count_cut(keys: Seq<u64>)
    requires
        keys.len() > 0,
    ensures
        run_count(keys) == run_count(keys.take(keys.len() - trailing_run(keys))) + 1,
    decreases keys.len(),
{
    lemma_trailing_run_bounds(keys);
    if keys.len() == 1 {
        assert(keys.take(0) =~= Seq::<u64>::empty());
    } else if keys[keys.len() - 2] == keys[keys.len() - 1] {
        let front = keys.drop_last();
        lemma_run_count_cut(front);
        lemma_trailing_run_bounds(front);
        assert(front.take(front.len() - trailing_run(front)) =~= keys.take(
            keys.len() - trailing_run(keys),
        ));
    } else {
        assert(keys.take(keys.len() - 1) =~= keys.drop_last());
    }
}

/// There are as many runs as there are places where a run starts.
pub proof fn lemma_runs_len<T>(items: Seq<T>, keys: Seq<u64>)
    requires
        keys.len() == items.len(),
    ensures
        runs_by_key(items, keys).len() == run_count(keys),
    decreases items.len(),
{
    if items.len() > 0 {
        lemma_trailing_run_bounds(keys);
        let cut = items.len() - trailing_run(keys);
        lemma_runs_len(items.take(cut), keys.take(cut));
        lemma_run_count_cut(keys);
    }
}

/// Without merging, a field has as many object entries as the objects
/// observed for it have runs of consecutive equal fingerprints. Two objects
/// with one fingerprint that are parted by an object with another count
/// twice.
pub proof fn law_object_entries_count_runs(name: Text, values: Seq<RawValue>)
    ensures
        object_count(type_list(name, values, false)) == run_count(
            fingerprints(object_shapes(values)),
        ),
{
    let strings = string_entries(string_lengths(values));
    let objects = object_entries(name, values, false);
    let primitives = primitive_entries(values);
    let arrays = array_entries(name, values, false);
    lemma_object_count_concat(strings, objects);
    lemma_object_count_concat(strings + objects, primitives);
    lemma_object_count_concat(strings + objects + primitives, arrays);
    lemma_primitive_entries_hold_no_object(values);
    assert(object_count(strings) == 0) by {
        if strings.len() > 0 {
            assert(strings.drop_last() =~= Seq::<TypeSummary>::empty());
            assert(object_count(Seq::<TypeSummary>::empty()) == 0);
        }
    }
    assert(object_count(arrays) == 0) by {
        if arrays.len() > 0 {
            assert(arrays.drop_last() =~= Seq::<TypeSummary>::empty());
            assert(object_count(Seq::<TypeSummary>::empty()) == 0);
        }
    }
    let shapes = object_shapes(values);
    if shapes.len() > 0 {
        lemma_group_entries_are_objects(name, key_runs(shapes));
        lemma_runs_len(shapes, fingerprints(shapes));
    } else {
        assert(fingerprints(shapes) =~= Seq::<u64>::empty());
    }
}

/// Without merging, every field of the schema of `shapes` has as many
/// object entries as the objects observed under its name have runs.
pub proof fn law_schema_object_entries_count_runs(name: Text, shapes: Seq<Shape>, k: int)
    requires
        0 <= k < reduce(name, shapes, false).fields.len(),
    ensures
        ({
            let field = reduce(name, shapes, false).fields[k];
            object_count(field.types) == run_count(
                fingerprints(object_shapes(values_named(all_members(shapes), field.name))),
            )
        }),
{
    let members = all_members(shapes);
    lemma_field_entries_index(members, sorted_field_names(members), false);
    let field = reduce(name, shapes, false).fields[k];
    law_object_entries_count_runs(field.name, values_named(members, field.name));
}

/// Where there are keys there is a run.
pub proof fn lemma_run_count_positive(keys: Seq<u64>)
    requires
        keys.len() > 0,
    ensures
        run_count(keys) > 0,
    decreases keys.len(),
{
    if keys.len() > 1 {
        lemma_run_count_positive(keys.drop_last());
    }
}

/// Grouping cuts shapes into their maximal runs: the groups put together
/// are the shapes in their order, no group is empty, the shapes of a group
/// have one fingerprint, and where one group ends and the next begins the
/// fingerprints differ. Shapes with one fingerprint that are no neighbours
/// are therefore in separate groups.
pub proof fn law_groups_are_maximal_runs(shapes: Seq<Shape>)
    ensures
        is_run_partition(key_runs(shapes), shapes),
        key_runs(shapes).len() == run_count(fingerprints(shapes)),
{
    lemma_key_runs_partition(shapes);
    lemma_runs_len(shapes, fingerprints(shapes));
}

} // verus!
