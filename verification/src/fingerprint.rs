//! Computing key-set fingerprints and grouping objects by them.

use vstd::prelude::*;
use std::collections::hash_map::DefaultHasher;
use std::hash::Hasher;
use itertools::Itertools;
use vstd::relations::sorted_by;
use vstd::seq_lib::lemma_sorted_unique;
use vstd::utf8::encode_utf8;
use crate::model::Shape;
use crate::runs::{
    concat_all, fingerprint, is_run_partition, key_runs, lemma_member_names_index,
    lemma_run_partition_unique, member_names,
};
use crate::schema::Schema;
use crate::schema_object::SchemaObject;
use crate::text::{lemma_text_order_total, text_order, Text};
use crate::value_type::{keys_model, lemma_keys_model_index};

verus! {

/// What each of `strings` holds.
pub open spec fn texts(strings: Seq<String>) -> Seq<Text> {
    Seq::new(strings.len(), |i: int| strings[i]@)
}

/// The shape of each of `objects`.
pub open spec fn shapes_model(objects: Seq<SchemaObject>) -> Seq<Shape> {
    Seq::new(objects.len(), |i: int| objects[i]@)
}

/// The shapes of each of `groups`.
pub open spec fn groups_model(groups: Seq<Vec<SchemaObject>>) -> Seq<Seq<Shape>> {
    Seq::new(groups.len(), |g: int| shapes_model(groups[g]@))
}

/// `Itertools::sorted` on a list of strings: the result holds the same
/// strings as often as the argument does, and they ascend in the order of
/// `String`, which is `text_le`.
#[verifier::external_body]
pub(crate) fn sorted_names(names: Vec<String>) -> (sorted: Vec<String>)
    ensures
        texts(sorted@).to_multiset() == texts(names@).to_multiset(),
        sorted_by(texts(sorted@), text_order()),
{
    names.into_iter().sorted().collect()
}

/// `Itertools::group_by` with the fingerprint of an object's keys as the
/// key: consecutive objects with one fingerprint come out as one group, in
/// the order of the argument, so the groups are a run partition of it.
#[verifier::external_body]
fn consecutive_groups(objects: Vec<SchemaObject>) -> (groups: Vec<Vec<SchemaObject>>)
    ensures
        is_run_partition(groups_model(groups@), shapes_model(objects@)),
{
    objects.into_iter().group_by(|object| Schema::keys_fingerprint(object)).into_iter().map(
        |(_, run)| run.collect_vec(),
    ).collect()
}

/// Copies of the key names of an object are its member names.
proof fn lemma_member_names_of_keys(object: &SchemaObject, names: Seq<String>)
    requires
        names.len() == object.keys.len(),
        forall|i: int| 0 <= i < names.len() ==> names[i]@ == object.keys[i].id@,
    ensures
        texts(names) == member_names(object@),
{
    let keys = object.keys@;
    lemma_member_names_index(keys_model(keys));
    lemma_keys_model_index(keys);
    assert(texts(names) =~= member_names(keys_model(keys)));
}

impl Schema {
    /// Groups `objects` by the fingerprint of their keys: each run of
    /// consecutive objects with one fingerprint is a group. Objects with
    /// equal key sets that are not neighbours stay in separate groups.
    pub fn group_objects_by_keys_fingerprint(objects: Vec<SchemaObject>) -> (groups: Vec<
        Vec<SchemaObject>,
    >)
        ensures
            groups_model(groups@) == key_runs(shapes_model(objects@)),
            is_run_partition(groups_model(groups@), shapes_model(objects@)),
    {
        let ghost shapes = shapes_model(objects@);
        let groups = consecutive_groups(objects);
        proof {
            lemma_run_partition_unique(groups_model(groups@), shapes);
        }
        groups
    }

    /// The fingerprint of the key set of `object`: its key names are
    /// sorted and joined, and the result is hashed.
    pub fn keys_fingerprint(object: &SchemaObject) -> (print: u64)
        ensures
            print == fingerprint(object@),
    {
        let mut names: Vec<String> = Vec::new();
        let mut i: usize = 0;
        while i < object.keys.len()
            invariant
                i <= object.keys.len(),
                names.len() == i,
                forall|j: int| 0 <= j < i ==> names[j]@ == object.keys[j].id@,
            decreases object.keys.len() - i,
        {
            names.push(object.keys[i].id.clone());
            i += 1;
        }
        let ghost unsorted = texts(names@);
        proof {
            lemma_member_names_of_keys(object, names@);
        }
        let sorted = sorted_names(names);
        proof {
            lemma_text_order_total();
            unsorted.lemma_sort_by_ensures(text_order());
            lemma_sorted_unique(texts(sorted@), unsorted.sort_by(text_order()), text_order());
        }
        let mut joined = String::new();
        let mut k: usize = 0;
        while k < sorted.len()
            invariant
                k <= sorted.len(),
                joined@ == concat_all(texts(sorted@).take(k as int)),
            decreases sorted.len() - k,
        {
            proof {
                assert(texts(sorted@).take(k + 1).drop_last() =~= texts(sorted@).take(k as int));
            }
            joined.append(sorted[k].as_str());
            k += 1;
        }
        proof {
            assert(texts(sorted@).take(sorted.len() as int) =~= texts(sorted@));
        }
        let mut hasher = DefaultHasher::new();
        hasher.write(joined.as_str().as_bytes());
        proof {
            assert(hasher@ =~= seq![encode_utf8(joined@)]);
        }
        hasher.finish()
    }
}

} // verus!
