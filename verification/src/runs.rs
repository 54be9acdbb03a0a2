//! Key-set fingerprints and the runs of shapes that share one.

use vstd::prelude::*;
use std::collections::hash_map::DefaultHasher;
use vstd::std_specs::hash::DefaultHasherAdditionalSpecFns;
use vstd::utf8::encode_utf8;
use crate::model::Shape;
use crate::text::{text_order, Text};

verus! {

/// The names of the members of `shape`, in its order.
pub open spec fn member_names(shape: Shape) -> Seq<Text>
    decreases shape.len(),
{
    if shape.len() == 0 {
        Seq::empty()
    } else {
        member_names(shape.drop_last()).push(shape.last().name)
    }
}

/// All of `texts`, one after the other, with nothing between them.
pub open spec fn concat_all(texts: Seq<Text>) -> Text
    decreases texts.len(),
{
    if texts.len() == 0 {
        Seq::empty()
    } else {
        concat_all(texts.drop_last()) + texts.last()
    }
}

/// The digest that the standard hasher gives for the UTF-8 bytes of `text`,
/// written to it in one piece.
pub open spec fn digest(text: Text) -> u64 {
    DefaultHasher::spec_finish(seq![encode_utf8(text)])
}

/// The fingerprint of a shape: the digest of its key names, sorted and
/// joined. Values play no part in it.
pub open spec fn fingerprint(shape: Shape) -> u64 {
    digest(concat_all(member_names(shape).sort_by(text_order())))
}

/// The fingerprint of each of `shapes`.
pub open spec fn fingerprints(shapes: Seq<Shape>) -> Seq<u64> {
    Seq::new(shapes.len(), |i: int| fingerprint(shapes[i]))
}

/// How many keys at the end of `keys` equal the last one, with nothing else
/// between them.
pub open spec fn trailing_run(keys: Seq<u64>) -> nat
    decreases keys.len(),
{
    if keys.len() == 0 {
        0
    } else if keys.len() == 1 {
        1
    } else if keys[keys.len() - 2] == keys[keys.len() - 1] {
        1 + trailing_run(keys.drop_last())
    } else {
        1
    }
}

/// `items` cut into its maximal runs of consecutive items with equal keys,
/// where `keys[i]` is the key of `items[i]`.
pub open spec fn runs_by_key<T>(items: Seq<T>, keys: Seq<u64>) -> Seq<Seq<T>>
    recommends
        keys.len() == items.len(),
    decreases items.len(),
{
    if items.len() == 0 || keys.len() != items.len() {
        Seq::empty()
    } else {
        let cut = items.len() - trailing_run(keys);
        proof {
            lemma_trailing_run_bounds(keys);
        }
        runs_by_key(items.take(cut), keys.take(cut)).push(items.skip(cut))
    }
}

/// `shapes` cut into its maximal runs of consecutive shapes with one
/// fingerprint. A fingerprint that comes back after another one starts a new
/// run.
pub open spec fn key_runs(shapes: Seq<Shape>) -> Seq<Seq<Shape>> {
    runs_by_key(shapes, fingerprints(shapes))
}

/// All shapes of `groups`, one group after the other.
pub open spec fn concat_groups(groups: Seq<Seq<Shape>>) -> Seq<Shape>
    decreases groups.len(),
{
    if groups.len() == 0 {
        Seq::empty()
    } else {
        concat_groups(groups.drop_last()) + groups.last()
    }
}

/// Whether `groups` cuts `shapes` into runs: put together the groups are
/// `shapes`; none is empty; within a group all fingerprints agree; and where
/// one group ends and the next begins, the fingerprints differ.
pub open spec fn is_run_partition(groups: Seq<Seq<Shape>>, shapes: Seq<Shape>) -> bool {
    &&& concat_groups(groups) == shapes
    &&& forall|g: int| 0 <= g < groups.len() ==> (#[trigger] groups[g]).len() > 0
    &&& forall|g: int, i: int|
        0 <= g < groups.len() && 0 <= i < groups[g].len() ==> fingerprint(#[trigger] groups[g][i])
            == fingerprint(groups[g][0])
    &&& forall|g: int|
        0 < g < groups.len() ==> fingerprint(groups[g - 1].last()) != fingerprint(
            (#[trigger] groups[g])[0],
        )
}

/// The member names of a shape are the names of its members, one by one.
pub proof fn lemma_member_names_index(shape: Shape)
    ensures
        member_names(shape).len() == shape.len(),
        forall|i: int| 0 <= i < shape.len() ==> #[trigger] member_names(shape)[i] == shape[i].name,
    decreases shape.len(),
{
    if shape.len() > 0 {
        lemma_member_names_index(shape.drop_last());
    }
}

/// The last run is no longer than the keys, and not empty where there are
/// keys.
pub proof fn lemma_trailing_run_bounds(keys: Seq<u64>)
    ensures
        trailing_run(keys) <= keys.len(),
        keys.len() > 0 ==> trailing_run(keys) >= 1,
    decreases keys.len(),
{
    if keys.len() > 1 {
        lemma_trailing_run_bounds(keys.drop_last());
    }
}

/// The keys at the end of `keys` that equal the last one are exactly the
/// last `count`, if those are equal and the key before them, if there is
/// one, is another.
pub proof fn lemma_trailing_run_is(keys: Seq<u64>, count: nat)
    requires
        1 <= count <= keys.len(),
        forall|i: int|
            keys.len() - count <= i < keys.len() ==> #[trigger] keys[i] == keys.last(),
        count < keys.len() ==> keys[keys.len() - count - 1] != keys.last(),
    ensures
        trailing_run(keys) == count,
    decreases count,
{
    if count > 1 {
        let front = keys.drop_last();
        assert forall|i: int|
            front.len() - (count - 1) <= i < front.len() implies #[trigger] front[i]
            == front.last() by {
            assert(front[i] == keys[i]);
            assert(front.last() == keys[keys.len() - 2]);
        }
        lemma_trailing_run_is(front, (count - 1) as nat);
    }
}

/// Every item of every run is an item of the input.
pub proof fn lemma_runs_source<T>(items: Seq<T>, keys: Seq<u64>, g: int, i: int)
    requires
        0 <= g < runs_by_key(items, keys).len(),
        0 <= i < runs_by_key(items, keys)[g].len(),
    ensures
        items.contains(runs_by_key(items, keys)[g][i]),
    decreases items.len(),
{
    lemma_trailing_run_bounds(keys);
    let cut = items.len() - trailing_run(keys);
    let front = runs_by_key(items.take(cut), keys.take(cut));
    if g < front.len() {
        lemma_runs_source(items.take(cut), keys.take(cut), g, i);
        let j = choose|j: int| 0 <= j < items.take(cut).len() && items.take(cut)[j] == front[g][i];
        assert(items[j] == items.take(cut)[j]);
    } else {
        assert(items[cut + i] == items.skip(cut)[i]);
    }
}

/// A run partition of `shapes` is `key_runs(shapes)`: there is no other.
pub proof fn lemma_run_partition_unique(groups: Seq<Seq<Shape>>, shapes: Seq<Shape>)
    requires
        is_run_partition(groups, shapes),
    ensures
        groups == key_runs(shapes),
    decreases groups.len(),
{
    if groups.len() == 0 {
        assert(key_runs(shapes) =~= groups);
    } else {
        let front = groups.drop_last();
        let last = groups.last();
        let before = concat_groups(front);
        let keys = fingerprints(shapes);
        let cut = before.len() as int;
        assert(shapes =~= before + last);
        assert(last == groups[groups.len() - 1]);
        assert(last.len() > 0);
        assert forall|i: int| keys.len() - last.len() <= i < keys.len() implies #[trigger] keys[i]
            == keys.last() by {
            assert(shapes[i] == last[i - cut]);
            assert(shapes[shapes.len() - 1] == last[last.len() - 1]);
            assert(fingerprint(groups[groups.len() - 1][i - cut]) == fingerprint(last[0]));
            assert(fingerprint(groups[groups.len() - 1][last.len() - 1]) == fingerprint(last[0]));
        }
        assert forall|g: int| 0 <= g < front.len() implies (#[trigger] front[g]).len() > 0 by {
            assert(front[g] == groups[g]);
        }
        assert forall|g: int, i: int|
            0 <= g < front.len() && 0 <= i < front[g].len() implies fingerprint(
            #[trigger] front[g][i],
        ) == fingerprint(front[g][0]) by {
            assert(front[g] == groups[g]);
            assert(fingerprint(groups[g][i]) == fingerprint(groups[g][0]));
        }
        assert forall|g: int| 0 < g < front.len() implies fingerprint(front[g - 1].last())
            != fingerprint((#[trigger] front[g])[0]) by {
            assert(front[g] == groups[g]);
            assert(front[g - 1] == groups[g - 1]);
        }
        assert(is_run_partition(front, before));
        if front.len() > 0 {
            let previous = front.last();
            assert(previous == groups[groups.len() - 2]);
            assert(before =~= concat_groups(front.drop_last()) + previous);
            assert(before[cut - 1] == previous.last());
            assert(shapes[cut - 1] == before[cut - 1]);
            assert(fingerprint(groups[groups.len() - 2].last()) != fingerprint(
                groups[groups.len() - 1][0],
            ));
            assert(fingerprint(groups[groups.len() - 1][last.len() - 1]) == fingerprint(last[0]));
            assert(shapes[shapes.len() - 1] == last[last.len() - 1]);
            assert(keys[cut - 1] != keys[keys.len() - 1]);
        } else {
            assert(before.len() == 0);
        }
        lemma_trailing_run_is(keys, last.len());
        lemma_run_partition_unique(front, before);
        assert(shapes.take(cut) =~= before);
        assert(shapes.skip(cut) =~= last);
        assert(keys.take(cut) =~= fingerprints(before));
        assert(groups =~= front.push(last));
    }
}

/// The last run holds equal keys only, and the key before it, if there is
/// one, is another.
pub proof fn lemma_trailing_run_holds(keys: Seq<u64>)
    requires
        keys.len() > 0,
    ensures
        1 <= trailing_run(keys) <= keys.len(),
        forall|i: int|
            keys.len() - trailing_run(keys) <= i < keys.len() ==> #[trigger] keys[i] == keys.last(),
        trailing_run(keys) < keys.len() ==> keys[keys.len() - trailing_run(keys) - 1]
            != keys.last(),
    decreases keys.len(),
{
    if keys.len() > 1 && keys[keys.len() - 2] == keys[keys.len() - 1] {
        let front = keys.drop_last();
        lemma_trailing_run_holds(front);
        assert forall|i: int|
            keys.len() - trailing_run(keys) <= i < keys.len() implies #[trigger] keys[i]
            == keys.last() by {
            if i < front.len() {
                assert(front[i] == front.last());
            }
        }
        if trailing_run(keys) < keys.len() {
            assert(front[front.len() - trailing_run(front) - 1] != front.last());
        }
    }
}

/// The last shape of all groups is the last shape of the last group.
pub proof fn lemma_concat_groups_last(groups: Seq<Seq<Shape>>)
    requires
        groups.len() > 0,
        groups.last().len() > 0,
    ensures
        concat_groups(groups).len() > 0,
        concat_groups(groups).last() == groups.last().last(),
{
}

/// `key_runs` cuts shapes into runs: the runs put together are the shapes,
/// none is empty, each holds one fingerprint only, and neighbouring runs
/// differ in it, so that no run could be longer.
pub proof fn lemma_key_runs_partition(shapes: Seq<Shape>)
    ensures
        is_run_partition(key_runs(shapes), shapes),
    decreases shapes.len(),
{
    let keys = fingerprints(shapes);
    let groups = key_runs(shapes);
    if shapes.len() == 0 {
        assert(concat_groups(groups) =~= shapes);
    } else {
        lemma_trailing_run_holds(keys);
        let cut = shapes.len() - trailing_run(keys);
        let before = shapes.take(cut);
        let last = shapes.skip(cut);
        assert(keys.take(cut) =~= fingerprints(before));
        let front = key_runs(before);
        lemma_key_runs_partition(before);
        assert(groups == front.push(last));
        assert(groups.drop_last() =~= front);
        assert(concat_groups(groups) =~= shapes);
        assert forall|g: int| 0 <= g < groups.len() implies (#[trigger] groups[g]).len() > 0 by {
            if g < front.len() {
                assert(groups[g] == front[g]);
            }
        }
        assert forall|g: int, i: int|
            0 <= g < groups.len() && 0 <= i < groups[g].len() implies fingerprint(
            #[trigger] groups[g][i],
        ) == fingerprint(groups[g][0]) by {
            if g < front.len() {
                assert(groups[g] == front[g]);
                assert(fingerprint(front[g][i]) == fingerprint(front[g][0]));
            } else {
                assert(groups[g][i] == shapes[cut + i]);
                assert(groups[g][0] == shapes[cut]);
                assert(keys[cut + i] == keys.last());
                assert(keys[cut] == keys.last());
            }
        }
        assert forall|g: int| 0 < g < groups.len() implies fingerprint(groups[g - 1].last())
            != fingerprint((#[trigger] groups[g])[0]) by {
            if g < front.len() {
                assert(groups[g] == front[g]);
                assert(groups[g - 1] == front[g - 1]);
            } else {
                assert(groups[g - 1] == front.last());
                assert(front[front.len() - 1].len() > 0);
                lemma_concat_groups_last(front);
                assert(before.last() == shapes[cut - 1]);
                assert(groups[g][0] == shapes[cut]);
                assert(keys[cut - 1] != keys.last());
                assert(keys[cut] == keys.last());
            }
        }
    }
}

} // verus!
