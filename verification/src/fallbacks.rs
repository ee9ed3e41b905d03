//! Malformed limb arrays: where the transform falls back to walking an
//! array that stands under a field-element key, and how often.

use crate::classify::{is_wrapper, Classification, Classifier, Policy};
use crate::transform::{
    extend_path, is_flat_limbs, is_nested_limbs, is_walked_array, limbs_of_items, quads_of_items,
};
use crate::value::{entries_view, items_view, lemma_view_children, texts, Tree, Value};
use vstd::prelude::*;

verus! {

/// A malformed limb array: an array under a field-element key that is
/// neither a flat limb array nor an array of four-limb arrays. The transform
/// walks it item by item.
pub open spec fn is_malformed(policy: Policy, node: Tree, path: Seq<Seq<char>>) -> bool {
    &&& node is Array
    &&& policy.is_field(path)
    &&& !is_flat_limbs(node->Array_0)
    &&& !is_nested_limbs(node->Array_0)
}

/// The number of malformed limb arrays that the transform of `node` at
/// `path` meets. What lies under a raw key or inside a packed array is not
/// visited, and not counted.
pub open spec fn fallbacks(policy: Policy, node: Tree, path: Seq<Seq<char>>) -> nat
    decreases node, 0nat,
{
    if policy.is_raw(path) {
        0
    } else if is_wrapper(node) {
        fallbacks(policy, node->Object_0[0].1, path)
    } else {
        match node {
            Tree::Object(entries) => fallbacks_in_entries(policy, entries, path),
            Tree::Array(items) => {
                if is_malformed(policy, node, path) {
                    1 + fallbacks_in_items(policy, items, path)
                } else if is_walked_array(policy, node, path) {
                    fallbacks_in_items(policy, items, path)
                } else {
                    0
                }
            },
            _ => 0,
        }
    }
}

/// The malformed limb arrays met in the items of an array at `path`.
pub open spec fn fallbacks_in_items(policy: Policy, items: Seq<Tree>, path: Seq<Seq<char>>) -> nat
    decreases items, 1nat,
{
    if items.len() == 0 {
        0
    } else {
        fallbacks_in_items(policy, items.drop_last(), path) + fallbacks(
            policy,
            items.last(),
            path,
        )
    }
}

/// The malformed limb arrays met in the entries of an object at `path`.
pub open spec fn fallbacks_in_entries(
    policy: Policy,
    entries: Seq<(Seq<char>, Tree)>,
    path: Seq<Seq<char>>,
) -> nat
    decreases entries, 1nat,
{
    if entries.len() == 0 {
        0
    } else {
        fallbacks_in_entries(policy, entries.drop_last(), path) + fallbacks(
            policy,
            entries.last().1,
            path.push(entries.last().0),
        )
    }
}

/// `n` as a count that stops at the largest `u64`.
pub open spec fn saturated(n: nat) -> u64 {
    if n > u64::MAX {
        u64::MAX
    } else {
        n as u64
    }
}

/// Whether `val`, found at `path`, is a malformed limb array.
pub fn is_malformed_limb_array(classifier: &Classifier, val: &Value, path: &Vec<String>) -> (malformed:
    bool)
    ensures
        malformed == is_malformed(classifier@, val@, texts(path@)),
{
    proof {
        lemma_view_children(*val);
    }
    match val {
        Value::Array(items) => {
            if !classifier.is_field(path) {
                return false;
            }
            if let Some(limbs) = limbs_of_items(items) {
                if limbs.len() == 1 || (limbs.len() >= 4 && limbs.len() % 4 == 0) {
                    return false;
                }
            }
            quads_of_items(items).is_none()
        },
        _ => false,
    }
}

/// Counts the malformed limb arrays in the items of the array `val`.
fn count_in_items(classifier: &Classifier, val: &Value, items: &Vec<Value>, path: &Vec<String>) -> (count:
    u64)
    requires
        *val == Value::Array(*items),
    ensures
        count == saturated(fallbacks_in_items(classifier@, items_view(items@), texts(path@))),
    decreases val, 0nat,
{
    let ghost trees = items_view(items@);
    let mut count: u64 = 0;
    let mut i: usize = 0;
    while i < items.len()
        invariant
            i <= items.len(),
            *val == Value::Array(*items),
            trees == items_view(items@),
            count == saturated(fallbacks_in_items(classifier@, trees.take(i as int), texts(path@))),
        decreases items.len() - i,
    {
        proof {
            assert(decreases_to!(val => val->Array_0));
            let next = trees.take(i + 1);
            assert(next.drop_last() =~= trees.take(i as int));
        }
        count = count.saturating_add(count_fallbacks(classifier, &items[i], path));
        i = i + 1;
    }
    assert(trees.take(items@.len() as int) =~= trees);
    count
}

/// Counts the malformed limb arrays in the entries of the object `val`.
fn count_in_entries(
    classifier: &Classifier,
    val: &Value,
    entries: &Vec<(String, Value)>,
    path: &Vec<String>,
) -> (count: u64)
    requires
        *val == Value::Object(*entries),
    ensures
        count == saturated(
            fallbacks_in_entries(classifier@, entries_view(entries@), texts(path@)),
        ),
    decreases val, 0nat,
{
    let ghost trees = entries_view(entries@);
    let mut count: u64 = 0;
    let mut i: usize = 0;
    while i < entries.len()
        invariant
            i <= entries.len(),
            *val == Value::Object(*entries),
            trees == entries_view(entries@),
            count == saturated(
                fallbacks_in_entries(classifier@, trees.take(i as int), texts(path@)),
            ),
        decreases entries.len() - i,
    {
        proof {
            assert(decreases_to!(val => val->Object_0));
            let next = trees.take(i + 1);
            assert(next.drop_last() =~= trees.take(i as int));
        }
        let child_path = extend_path(path, &entries[i].0);
        count = count.saturating_add(count_fallbacks(classifier, &entries[i].1, &child_path));
        i = i + 1;
    }
    assert(trees.take(entries@.len() as int) =~= trees);
    count
}

/// The number of malformed limb arrays that the transform of `val` at
/// `path` falls back on, up to the largest `u64`.
pub fn count_fallbacks(classifier: &Classifier, val: &Value, path: &Vec<String>) -> (count: u64)
    ensures
        count == saturated(fallbacks(classifier@, val@, texts(path@))),
    decreases val, 1nat,
{
    proof {
        lemma_view_children(*val);
    }
    match classifier.classify(val, path) {
        Classification::Raw => 0,
        Classification::UnwrapWrapper => {
            match val {
                Value::Object(entries) => {
                    count_fallbacks(classifier, &entries[0].1, path)
                },
                _ => 0,
            }
        },
        _ => {
            match val {
                Value::Object(entries) => count_in_entries(classifier, val, entries, path),
                Value::Array(items) => {
                    if is_malformed_limb_array(classifier, val, path) {
                        count_in_items(classifier, val, items, path).saturating_add(1)
                    } else if classifier.is_field(path) {
                        0
                    } else {
                        count_in_items(classifier, val, items, path)
                    }
                },
                _ => 0,
            }
        },
    }
}

} // verus!
