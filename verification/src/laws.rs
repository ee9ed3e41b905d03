//! Laws of the tree transform, proved of its model.

use crate::classify::{is_wrapper, wrapper_key, Policy};
use crate::transform::{
    all_limbs, is_flat_limbs, is_limb, is_limb_quad, is_nested_limbs, is_walked_array,
    lemma_transformed_children, packed_nested, transformed, transformed_entries,
    transformed_items,
};
use crate::value::Tree;
use vstd::prelude::*;

verus! {

/// Two paths that end in the same key, or are both empty.
pub open spec fn same_last_key(a: Seq<Seq<char>>, b: Seq<Seq<char>>) -> bool {
    if a.len() == 0 {
        b.len() == 0
    } else {
        b.len() > 0 && a.last() == b.last()
    }
}

/// The path counts only by its last key: at two paths that end in the same
/// key, a node is classified alike and has the same transform.
pub proof fn lemma_only_last_key_counts(
    policy: Policy,
    node: Tree,
    a: Seq<Seq<char>>,
    b: Seq<Seq<char>>,
)
    requires
        same_last_key(a, b),
    ensures
        policy.classify(node, a) == policy.classify(node, b),
        transformed(policy, node, a) == transformed(policy, node, b),
    decreases node,
{
    if policy.is_raw(a) {
    } else if is_wrapper(node) {
        lemma_only_last_key_counts(policy, node->Object_0[0].1, a, b);
    } else if node is Object {
        let entries = node->Object_0;
        lemma_transformed_children(policy, node, a);
        lemma_transformed_children(policy, node, b);
        assert forall|i: int| 0 <= i < entries.len() implies transformed_entries(
            policy,
            entries,
            a,
        )[i] == transformed_entries(policy, entries, b)[i] by {
            lemma_only_last_key_counts(
                policy,
                entries[i].1,
                a.push(entries[i].0),
                b.push(entries[i].0),
            );
        }
        assert(transformed_entries(policy, entries, a) =~= transformed_entries(
            policy,
            entries,
            b,
        ));
    } else if is_walked_array(policy, node, a) {
        let items = node->Array_0;
        lemma_transformed_children(policy, node, a);
        lemma_transformed_children(policy, node, b);
        assert forall|i: int| 0 <= i < items.len() implies transformed_items(policy, items, a)[i]
            == transformed_items(policy, items, b)[i] by {
            lemma_only_last_key_counts(policy, items[i], a, b);
        }
        assert(transformed_items(policy, items, a) =~= transformed_items(policy, items, b));
    }
}

/// A node under a raw key is kept exactly, whatever its shape.
pub proof fn lemma_raw_is_kept(policy: Policy, node: Tree, path: Seq<Seq<char>>)
    requires
        policy.is_raw(path),
    ensures
        transformed(policy, node, path) == node,
{
}

/// Unwrapping is transparent: away from raw keys, a wrapper object has the
/// transform of the array it wraps, at the same path.
pub proof fn lemma_wrapper_is_transparent(
    policy: Policy,
    items: Seq<Tree>,
    path: Seq<Seq<char>>,
)
    requires
        !policy.is_raw(path),
    ensures
        transformed(policy, Tree::Object(seq![(wrapper_key(), Tree::Array(items))]), path)
            == transformed(policy, Tree::Array(items), path),
{
    assert(is_wrapper(Tree::Object(seq![(wrapper_key(), Tree::Array(items))])));
}

/// The transform of an array is a string or an array.
pub proof fn lemma_array_becomes_string_or_array(
    policy: Policy,
    node: Tree,
    path: Seq<Seq<char>>,
)
    requires
        node is Array,
    ensures
        transformed(policy, node, path) is String || transformed(policy, node, path) is Array,
{
}

/// Where the transform of a node is a number, the node is that number.
pub proof fn lemma_number_is_kept(policy: Policy, node: Tree, path: Seq<Seq<char>>)
    requires
        transformed(policy, node, path) is Number,
    ensures
        transformed(policy, node, path) == node,
{
    if !policy.is_raw(path) && is_wrapper(node) {
        lemma_array_becomes_string_or_array(policy, node->Object_0[0].1, path);
    }
}

/// Where the items of an array, each transformed at `path`, are all limbs,
/// the items themselves are those limbs.
proof fn lemma_walked_limbs_are_kept(policy: Policy, items: Seq<Tree>, path: Seq<Seq<char>>)
    requires
        all_limbs(transformed_items(policy, items, path)),
    ensures
        transformed_items(policy, items, path) == items,
{
    let out = transformed_items(policy, items, path);
    assert forall|i: int| 0 <= i < items.len() implies out[i] == items[i] by {
        assert(is_limb(out[i]));
        lemma_number_is_kept(policy, items[i], path);
    }
}

/// Under a field-element key, the transform of an array is never an array
/// of exactly four limbs.
proof fn lemma_array_never_becomes_quad(policy: Policy, node: Tree, path: Seq<Seq<char>>)
    requires
        node is Array,
        policy.is_field(path),
    ensures
        !is_limb_quad(transformed(policy, node, path)),
{
    let items = node->Array_0;
    let out = transformed(policy, node, path);
    if is_flat_limbs(items) || is_nested_limbs(items) {
        if out is Array && out->Array_0.len() == 4 {
            assert(!is_limb(out->Array_0[0]));
        }
    } else {
        lemma_transformed_children(policy, node, path);
        if is_limb_quad(out) {
            lemma_walked_limbs_are_kept(policy, items, path);
        }
    }
}

/// Under a field-element key, no transform is an array of exactly four
/// limbs.
proof fn lemma_never_becomes_quad(policy: Policy, node: Tree, path: Seq<Seq<char>>)
    requires
        policy.is_field(path),
    ensures
        !is_limb_quad(transformed(policy, node, path)),
{
    if is_wrapper(node) {
        lemma_array_never_becomes_quad(policy, node->Object_0[0].1, path);
    } else if node is Array {
        lemma_array_never_becomes_quad(policy, node, path);
    }
}

/// An array that is walked item by item becomes an array that is walked
/// item by item.
proof fn lemma_walked_array_stays_walked(policy: Policy, node: Tree, path: Seq<Seq<char>>)
    requires
        is_walked_array(policy, node, path),
    ensures
        is_walked_array(policy, transformed(policy, node, path), path),
{
    let items = node->Array_0;
    let out = transformed_items(policy, items, path);
    lemma_transformed_children(policy, node, path);
    if policy.is_field(path) {
        if is_flat_limbs(out) {
            lemma_walked_limbs_are_kept(policy, items, path);
        }
        if is_nested_limbs(out) && items.len() > 0 {
            assert(is_limb_quad(out[0]));
            lemma_never_becomes_quad(policy, items[0], path);
        }
    }
}

/// What a flat limb array or an array of four-limb arrays becomes is not
/// changed by a second transform.
proof fn lemma_packed_is_stable(policy: Policy, node: Tree, path: Seq<Seq<char>>)
    requires
        node is Array,
        policy.is_field(path),
        is_flat_limbs(node->Array_0) || is_nested_limbs(node->Array_0),
    ensures
        transformed(policy, transformed(policy, node, path), path) == transformed(
            policy,
            node,
            path,
        ),
{
    let out = transformed(policy, node, path);
    if out is Array {
        let strings = out->Array_0;
        if strings.len() > 0 {
            lemma_transformed_children(policy, out, path);
            assert(transformed_items(policy, strings, path) =~= strings);
        } else {
            assert(packed_nested(strings, policy.modulus)->Array_0 =~= strings);
        }
    }
}

/// Somewhere on the walk of `node`, an object that is no wrapper becomes
/// one: its single entry has the wrapper key and holds no array, but what
/// that entry becomes is an array.
///
/// The smallest case is a wrapper inside a wrapper: the outer object holds
/// an object, so it is walked, and the inner wrapper gives way to its array.
pub open spec fn forms_wrapper(policy: Policy, node: Tree, path: Seq<Seq<char>>) -> bool
    decreases node,
{
    if policy.is_raw(path) {
        false
    } else if is_wrapper(node) {
        forms_wrapper(policy, node->Object_0[0].1, path)
    } else {
        match node {
            Tree::Object(entries) => {
                ||| is_wrapper(transformed(policy, node, path))
                ||| exists|i: int|
                    0 <= i < entries.len() && forms_wrapper(
                        policy,
                        (#[trigger] entries[i]).1,
                        path.push(entries[i].0),
                    )
            },
            Tree::Array(items) => {
                &&& is_walked_array(policy, node, path)
                &&& exists|i: int|
                    0 <= i < items.len() && forms_wrapper(policy, #[trigger] items[i], path)
            },
            _ => false,
        }
    }
}

/// A wrapper inside a wrapper forms a wrapper, wherever the array of the
/// inner one stays an array and neither object stands under a raw key.
pub proof fn lemma_wrapper_in_wrapper_forms_wrapper(
    policy: Policy,
    items: Seq<Tree>,
    path: Seq<Seq<char>>,
)
    requires
        !policy.is_raw(path),
        !policy.is_raw(path.push(wrapper_key())),
        transformed(policy, Tree::Array(items), path.push(wrapper_key())) is Array,
    ensures
        forms_wrapper(
            policy,
            Tree::Object(
                seq![(wrapper_key(), Tree::Object(seq![(wrapper_key(), Tree::Array(items))]))],
            ),
            path,
        ),
{
    let inner = Tree::Object(seq![(wrapper_key(), Tree::Array(items))]);
    let outer = Tree::Object(seq![(wrapper_key(), inner)]);
    assert(is_wrapper(inner));
    assert(!is_wrapper(outer));
    lemma_transformed_children(policy, outer, path);
    assert(is_wrapper(transformed(policy, outer, path)));
}

/// Idempotence: a second transform changes nothing, unless the first one
/// formed a wrapper.
pub proof fn lemma_transform_is_idempotent(policy: Policy, node: Tree, path: Seq<Seq<char>>)
    requires
        !forms_wrapper(policy, node, path),
    ensures
        transformed(policy, transformed(policy, node, path), path) == transformed(
            policy,
            node,
            path,
        ),
    decreases node,
{
    let out = transformed(policy, node, path);
    if policy.is_raw(path) {
    } else if is_wrapper(node) {
        lemma_transform_is_idempotent(policy, node->Object_0[0].1, path);
    } else if node is Object {
        let entries = node->Object_0;
        let walked = transformed_entries(policy, entries, path);
        lemma_transformed_children(policy, node, path);
        lemma_transformed_children(policy, out, path);
        assert forall|i: int| 0 <= i < entries.len() implies (#[trigger] transformed_entries(
            policy,
            walked,
            path,
        )[i]) == walked[i] by {
            lemma_transform_is_idempotent(policy, entries[i].1, path.push(entries[i].0));
        }
        assert(transformed_entries(policy, walked, path) =~= walked);
    } else if node is Array {
        let items = node->Array_0;
        if is_walked_array(policy, node, path) {
            let walked = transformed_items(policy, items, path);
            lemma_transformed_children(policy, node, path);
            lemma_walked_array_stays_walked(policy, node, path);
            lemma_transformed_children(policy, out, path);
            assert forall|i: int| 0 <= i < items.len() implies (#[trigger] transformed_items(
                policy,
                walked,
                path,
            )[i]) == walked[i] by {
                lemma_transform_is_idempotent(policy, items[i], path);
            }
            assert(transformed_items(policy, walked, path) =~= walked);
        } else {
            lemma_packed_is_stable(policy, node, path);
        }
    }
}

/// Where the first transform formed a wrapper, a second one unwraps it, and
/// so changes the document.
pub proof fn lemma_formed_wrapper_is_unwrapped(policy: Policy, node: Tree, path: Seq<Seq<char>>)
    requires
        forms_wrapper(policy, node, path),
    ensures
        transformed(policy, transformed(policy, node, path), path) != transformed(
            policy,
            node,
            path,
        ),
    decreases node,
{
    let out = transformed(policy, node, path);
    if is_wrapper(node) {
        lemma_formed_wrapper_is_unwrapped(policy, node->Object_0[0].1, path);
    } else if node is Object {
        let entries = node->Object_0;
        let walked = transformed_entries(policy, entries, path);
        lemma_transformed_children(policy, node, path);
        if is_wrapper(out) {
            lemma_array_becomes_string_or_array(policy, out->Object_0[0].1, path);
        } else {
            lemma_transformed_children(policy, out, path);
            let i = choose|i: int|
                0 <= i < entries.len() && forms_wrapper(
                    policy,
                    (#[trigger] entries[i]).1,
                    path.push(entries[i].0),
                );
            lemma_formed_wrapper_is_unwrapped(policy, entries[i].1, path.push(entries[i].0));
            assert(transformed_entries(policy, walked, path)[i] != walked[i]);
        }
    } else if node is Array {
        let items = node->Array_0;
        let walked = transformed_items(policy, items, path);
        lemma_transformed_children(policy, node, path);
        lemma_walked_array_stays_walked(policy, node, path);
        lemma_transformed_children(policy, out, path);
        let i = choose|i: int|
            0 <= i < items.len() && forms_wrapper(policy, #[trigger] items[i], path);
        lemma_formed_wrapper_is_unwrapped(policy, items[i], path);
        assert(transformed_items(policy, walked, path)[i] != walked[i]);
    }
}

/// The transform keeps object keys unique: of a document in which no
/// object holds a key twice, the transform is such a document.
pub proof fn lemma_transform_keeps_well_formed(policy: Policy, node: Tree, path: Seq<Seq<char>>)
    requires
        node.well_formed(),
    ensures
        transformed(policy, node, path).well_formed(),
    decreases node,
{
    let out = transformed(policy, node, path);
    if policy.is_raw(path) {
    } else if is_wrapper(node) {
        lemma_transform_keeps_well_formed(policy, node->Object_0[0].1, path);
    } else if node is Object {
        let entries = node->Object_0;
        let walked = transformed_entries(policy, entries, path);
        lemma_transformed_children(policy, node, path);
        assert forall|i: int| 0 <= i < walked.len() implies (#[trigger] walked[i]).1.well_formed() by {
            lemma_transform_keeps_well_formed(policy, entries[i].1, path.push(entries[i].0));
        }
        assert forall|i: int, j: int| 0 <= i < j < walked.len() implies (#[trigger] walked[i]).0 != (
        #[trigger] walked[j]).0 by {
            assert(entries[i].0 != entries[j].0);
        }
    } else if node is Array {
        let items = node->Array_0;
        if is_walked_array(policy, node, path) {
            let walked = transformed_items(policy, items, path);
            lemma_transformed_children(policy, node, path);
            assert forall|i: int| 0 <= i < walked.len() implies (#[trigger] walked[i]).well_formed() by {
                lemma_transform_keeps_well_formed(policy, items[i], path);
            }
        } else if out is Array {
            let strings = out->Array_0;
            assert forall|i: int| 0 <= i < strings.len() implies (#[trigger] strings[i]).well_formed() by {
                assert(strings[i] is String);
            }
        }
    }
}

} // verus!
