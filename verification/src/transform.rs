//! The tree transform: a document with its field elements packed into
//! canonical scalars.

use crate::laws::lemma_transform_keeps_well_formed;
use crate::classify::{goldilocks_policy, is_wrapper, Classification, Classifier, Policy};
use crate::limbs::{canonical, canonical_scalar, modulus_value, Modulus};
use crate::value::{entries_view, items_view, lemma_view_children, texts, Number, NumberView, Tree, Value};
use vstd::prelude::*;
use vstd::slice::slice_subrange;

verus! {

/// A limb: a number that fits 64 unsigned bits.
pub open spec fn is_limb(node: Tree) -> bool {
    node is Number && node->Number_0 is Unsigned
}

/// The value of a limb.
pub open spec fn limb_of(node: Tree) -> u64 {
    node->Number_0->Unsigned_0
}

/// Every item is a limb.
pub open spec fn all_limbs(items: Seq<Tree>) -> bool {
    forall|i: int| 0 <= i < items.len() ==> is_limb(#[trigger] items[i])
}

/// The values of a sequence of limbs, in order.
pub open spec fn limbs_of(items: Seq<Tree>) -> Seq<u64> {
    Seq::new(items.len(), |i: int| limb_of(items[i]))
}

/// A flat limb array: limbs only, and either one of them or a positive
/// multiple of four.
pub open spec fn is_flat_limbs(items: Seq<Tree>) -> bool {
    &&& all_limbs(items)
    &&& items.len() == 1 || (items.len() >= 4 && items.len() % 4 == 0)
}

/// An array of exactly four limbs.
pub open spec fn is_limb_quad(node: Tree) -> bool {
    &&& node is Array
    &&& node->Array_0.len() == 4
    &&& all_limbs(node->Array_0)
}

/// Every item is an array of exactly four limbs.
pub open spec fn is_nested_limbs(items: Seq<Tree>) -> bool {
    forall|i: int| 0 <= i < items.len() ==> is_limb_quad(#[trigger] items[i])
}

/// The canonical scalar of the element that `limbs` denote, as a node.
pub open spec fn scalar(limbs: Seq<u64>, modulus: Option<nat>) -> Tree {
    Tree::String(canonical(limbs, modulus))
}

/// The `group`-th run of four limbs of `limbs`.
pub open spec fn limb_group(limbs: Seq<u64>, group: int) -> Seq<u64> {
    limbs.subrange(4 * group, 4 * group + 4)
}

/// What the limbs of a flat limb array become: one scalar where they make
/// one element (one limb, or four), else the array of the scalars of their
/// runs of four.
pub open spec fn packed_limbs(limbs: Seq<u64>, modulus: Option<nat>) -> Tree {
    if limbs.len() == 1 || limbs.len() == 4 {
        scalar(limbs, modulus)
    } else {
        Tree::Array(
            Seq::new((limbs.len() / 4) as nat, |g: int| scalar(limb_group(limbs, g), modulus)),
        )
    }
}

/// What a flat limb array becomes.
pub open spec fn packed_flat(items: Seq<Tree>, modulus: Option<nat>) -> Tree {
    packed_limbs(limbs_of(items), modulus)
}

/// What an array of four-limb arrays becomes: the array of their scalars.
pub open spec fn packed_nested(items: Seq<Tree>, modulus: Option<nat>) -> Tree {
    Tree::Array(Seq::new(items.len(), |i: int| scalar(limbs_of(items[i]->Array_0), modulus)))
}

/// The transform of `node` found at `path`.
///
/// A raw node is kept. A wrapper object is replaced by the transform of the
/// array it wraps, at the same path. Any other object keeps its keys in
/// order, each entry transformed at the path extended by its key. An array
/// under a field-element key is packed where it is a flat limb array or an
/// array of four-limb arrays; every other array is transformed item by item
/// at the same path. A bare limb under a field-element key becomes its
/// canonical scalar where a modulus is set. Everything else is kept.
pub open spec fn transformed(policy: Policy, node: Tree, path: Seq<Seq<char>>) -> Tree
    decreases node,
{
    let class = policy.classify(node, path);
    if class is Raw {
        node
    } else if class is UnwrapWrapper {
        transformed(policy, node->Object_0[0].1, path)
    } else {
        match node {
            Tree::Object(entries) => Tree::Object(
                Seq::new(
                    entries.len(),
                    |i: int|
                        if 0 <= i < entries.len() {
                            (
                                entries[i].0,
                                transformed(policy, entries[i].1, path.push(entries[i].0)),
                            )
                        } else {
                            (Seq::empty(), Tree::Null)
                        },
                ),
            ),
            Tree::Array(items) => {
                if class is PackAsFieldElement && is_flat_limbs(items) {
                    packed_flat(items, policy.modulus)
                } else if class is PackAsFieldElement && is_nested_limbs(items) {
                    packed_nested(items, policy.modulus)
                } else {
                    Tree::Array(
                        Seq::new(
                            items.len(),
                            |i: int|
                                if 0 <= i < items.len() {
                                    transformed(policy, items[i], path)
                                } else {
                                    Tree::Null
                                },
                        ),
                    )
                }
            },
            Tree::Number(NumberView::Unsigned(x)) => {
                if class is PackAsFieldElement && policy.modulus is Some {
                    scalar(seq![x], policy.modulus)
                } else {
                    node
                }
            },
            _ => node,
        }
    }
}

/// The transforms of the items of an array, each at `path`.
pub open spec fn transformed_items(policy: Policy, items: Seq<Tree>, path: Seq<Seq<char>>) -> Seq<
    Tree,
> {
    Seq::new(items.len(), |i: int| transformed(policy, items[i], path))
}

/// The entries of an object, each transformed at `path` extended by its key.
pub open spec fn transformed_entries(
    policy: Policy,
    entries: Seq<(Seq<char>, Tree)>,
    path: Seq<Seq<char>>,
) -> Seq<(Seq<char>, Tree)> {
    Seq::new(
        entries.len(),
        |i: int| (entries[i].0, transformed(policy, entries[i].1, path.push(entries[i].0))),
    )
}

/// An array that is walked item by item: any array that is not raw, but for
/// the flat limb arrays and arrays of four-limb arrays under a
/// field-element key.
pub open spec fn is_walked_array(policy: Policy, node: Tree, path: Seq<Seq<char>>) -> bool {
    &&& node is Array
    &&& !policy.is_raw(path)
    &&& policy.is_field(path) ==> !is_flat_limbs(node->Array_0) && !is_nested_limbs(
        node->Array_0,
    )
}

/// An object that is walked entry by entry: any object that is neither raw
/// nor a wrapper.
pub open spec fn is_walked_object(policy: Policy, node: Tree, path: Seq<Seq<char>>) -> bool {
    &&& node is Object
    &&& !policy.is_raw(path)
    &&& !is_wrapper(node)
}

/// The transform of a walked container is made of the transforms of its
/// children.
pub proof fn lemma_transformed_children(policy: Policy, node: Tree, path: Seq<Seq<char>>)
    ensures
        is_walked_array(policy, node, path) ==> transformed(policy, node, path) == Tree::Array(
            transformed_items(policy, node->Array_0, path),
        ),
        is_walked_object(policy, node, path) ==> transformed(policy, node, path) == Tree::Object(
            transformed_entries(policy, node->Object_0, path),
        ),
{
    if is_walked_array(policy, node, path) {
        assert(transformed(policy, node, path)->Array_0 =~= transformed_items(
            policy,
            node->Array_0,
            path,
        ));
    }
    if is_walked_object(policy, node, path) {
        assert(transformed(policy, node, path)->Object_0 =~= transformed_entries(
            policy,
            node->Object_0,
            path,
        ));
    }
}

/// The limbs of `items`, where every item is a limb; `None` where one is not.
pub fn limbs_of_items(items: &Vec<Value>) -> (limbs: Option<Vec<u64>>)
    ensures
        limbs is Some <==> all_limbs(items_view(items@)),
        limbs matches Some(l) ==> l@ == limbs_of(items_view(items@)),
{
    let ghost trees = items_view(items@);
    let mut out: Vec<u64> = Vec::new();
    let mut i: usize = 0;
    while i < items.len()
        invariant
            i <= items.len(),
            out@.len() == i,
            trees == items_view(items@),
            forall|k: int| 0 <= k < i ==> is_limb(#[trigger] trees[k]) && out@[k] == limb_of(trees[k]),
        decreases items.len() - i,
    {
        assert(trees[i as int] == items@[i as int]@);
        match &items[i] {
            Value::Number(Number::Unsigned(x)) => {
                out.push(*x);
            },
            _ => {
                return None;
            },
        }
        i = i + 1;
    }
    Some(out)
}

/// The limbs of each item of `items`, where every item is an array of
/// exactly four limbs; `None` where one is not.
pub fn quads_of_items(items: &Vec<Value>) -> (quads: Option<Vec<Vec<u64>>>)
    ensures
        quads is Some <==> is_nested_limbs(items_view(items@)),
        quads matches Some(q) ==> q@.len() == items@.len() && forall|i: int|
            0 <= i < q@.len() ==> (#[trigger] q@[i])@ == limbs_of(items_view(items@)[i]->Array_0),
{
    let ghost trees = items_view(items@);
    let mut out: Vec<Vec<u64>> = Vec::new();
    let mut i: usize = 0;
    while i < items.len()
        invariant
            i <= items.len(),
            out@.len() == i,
            trees == items_view(items@),
            forall|k: int|
                0 <= k < i ==> is_limb_quad(#[trigger] trees[k]) && out@[k]@ == limbs_of(
                    trees[k]->Array_0,
                ),
        decreases items.len() - i,
    {
        assert(trees[i as int] == items@[i as int]@);
        proof {
            lemma_view_children(items@[i as int]);
        }
        match &items[i] {
            Value::Array(inner) => {
                if inner.len() != 4 {
                    return None;
                }
                match limbs_of_items(inner) {
                    Some(limbs) => {
                        out.push(limbs);
                    },
                    None => {
                        return None;
                    },
                }
            },
            _ => {
                return None;
            },
        }
        i = i + 1;
    }
    Some(out)
}

/// The node for the limbs of a flat limb array.
fn pack_flat(limbs: &Vec<u64>, modulus: Option<&Modulus>) -> (out: Value)
    requires
        limbs@.len() == 1 || (limbs@.len() >= 4 && limbs@.len() % 4 == 0),
    ensures
        out@ == packed_limbs(limbs@, modulus_value(modulus)),
{
    let ghost m = modulus_value(modulus);
    if limbs.len() == 1 || limbs.len() == 4 {
        return Value::String(canonical_scalar(limbs.as_slice(), modulus));
    }
    let groups: usize = limbs.len() / 4;
    let mut out: Vec<Value> = Vec::new();
    let mut g: usize = 0;
    while g < groups
        invariant
            g <= groups,
            4 * groups == limbs.len(),
            m == modulus_value(modulus),
            out@.len() == g,
            forall|k: int| 0 <= k < g ==> (#[trigger] out@[k])@ == scalar(limb_group(limbs@, k), m),
        decreases groups - g,
    {
        let group = slice_subrange(limbs.as_slice(), 4 * g, 4 * g + 4);
        out.push(Value::String(canonical_scalar(group, modulus)));
        g = g + 1;
    }
    let packed = Value::Array(out);
    proof {
        lemma_view_children(packed);
        assert(items_view(out@) =~= packed_limbs(limbs@, m)->Array_0);
    }
    packed
}

/// The node for an array of four-limb arrays, given the limbs of each.
fn pack_nested(quads: &Vec<Vec<u64>>, modulus: Option<&Modulus>) -> (out: Value)
    ensures
        out@ == Tree::Array(
            Seq::new(quads@.len(), |i: int| scalar(quads@[i]@, modulus_value(modulus))),
        ),
{
    let ghost m = modulus_value(modulus);
    let mut out: Vec<Value> = Vec::new();
    let mut i: usize = 0;
    while i < quads.len()
        invariant
            i <= quads.len(),
            m == modulus_value(modulus),
            out@.len() == i,
            forall|k: int| 0 <= k < i ==> (#[trigger] out@[k])@ == scalar(quads@[k]@, m),
        decreases quads.len() - i,
    {
        out.push(Value::String(canonical_scalar(quads[i].as_slice(), modulus)));
        i = i + 1;
    }
    let packed = Value::Array(out);
    proof {
        lemma_view_children(packed);
        assert(items_view(out@) =~= Seq::new(quads@.len(), |i: int| scalar(quads@[i]@, m)));
    }
    packed
}

/// `path` extended by `key`.
pub fn extend_path(path: &Vec<String>, key: &String) -> (longer: Vec<String>)
    ensures
        texts(longer@) == texts(path@).push(key@),
{
    let mut longer: Vec<String> = Vec::new();
    let mut i: usize = 0;
    while i < path.len()
        invariant
            i <= path.len(),
            longer@.len() == i,
            forall|k: int| 0 <= k < i ==> (#[trigger] longer@[k])@ == path@[k]@,
        decreases path.len() - i,
    {
        longer.push(path[i].clone());
        i = i + 1;
    }
    longer.push(key.clone());
    longer
}

/// Transforms the array `items` found at `path` item by item.
fn walk_items(classifier: &Classifier, val: &Value, items: &Vec<Value>, path: &Vec<String>) -> (out:
    Value)
    requires
        *val == Value::Array(*items),
    ensures
        out@ == Tree::Array(transformed_items(classifier@, items_view(items@), texts(path@))),
    decreases val, 0nat,
{
    let mut out: Vec<Value> = Vec::new();
    let mut i: usize = 0;
    while i < items.len()
        invariant
            i <= items.len(),
            out@.len() == i,
            *val == Value::Array(*items),
            forall|k: int|
                0 <= k < i ==> (#[trigger] out@[k])@ == transformed(
                    classifier@,
                    items@[k]@,
                    texts(path@),
                ),
        decreases items.len() - i,
    {
        assert(decreases_to!(val => val->Array_0));
        out.push(serialize_with_key_path(classifier, &items[i], path));
        i = i + 1;
    }
    let walked = Value::Array(out);
    proof {
        lemma_view_children(walked);
        assert(items_view(out@) =~= transformed_items(
            classifier@,
            items_view(items@),
            texts(path@),
        ));
    }
    walked
}

/// Transforms the object `entries` found at `path` entry by entry.
fn walk_entries(
    classifier: &Classifier,
    val: &Value,
    entries: &Vec<(String, Value)>,
    path: &Vec<String>,
) -> (out: Value)
    requires
        *val == Value::Object(*entries),
    ensures
        out@ == Tree::Object(
            transformed_entries(classifier@, entries_view(entries@), texts(path@)),
        ),
    decreases val, 0nat,
{
    let mut out: Vec<(String, Value)> = Vec::new();
    let mut i: usize = 0;
    while i < entries.len()
        invariant
            i <= entries.len(),
            out@.len() == i,
            *val == Value::Object(*entries),
            forall|k: int|
                0 <= k < i ==> (#[trigger] out@[k]).0@ == entries@[k].0@ && out@[k].1@
                    == transformed(
                    classifier@,
                    entries@[k].1@,
                    texts(path@).push(entries@[k].0@),
                ),
        decreases entries.len() - i,
    {
        assert(decreases_to!(val => val->Object_0));
        let key = entries[i].0.clone();
        let child_path = extend_path(path, &key);
        let child = serialize_with_key_path(classifier, &entries[i].1, &child_path);
        out.push((key, child));
        i = i + 1;
    }
    let walked = Value::Object(out);
    proof {
        lemma_view_children(walked);
        assert(entries_view(out@) =~= transformed_entries(
            classifier@,
            entries_view(entries@),
            texts(path@),
        ));
    }
    walked
}

/// The tree transform: `val`, found at `path`, with its field elements
/// packed into canonical scalars as `classifier` directs.
///
/// The input is left as it is; the result is a new tree.
pub fn serialize_with_key_path(classifier: &Classifier, val: &Value, path: &Vec<String>) -> (out:
    Value)
    ensures
        out@ == transformed(classifier@, val@, texts(path@)),
        classifier@.is_raw(texts(path@)) ==> out@ == val@,
        val@.well_formed() ==> out@.well_formed(),
    decreases val, 1nat,
{
    let ghost policy = classifier@;
    let ghost keys = texts(path@);
    proof {
        lemma_view_children(*val);
        lemma_transformed_children(policy, val@, keys);
        if val@.well_formed() {
            lemma_transform_keeps_well_formed(policy, val@, keys);
        }
    }
    let class = classifier.classify(val, path);
    match class {
        Classification::Raw => val.clone(),
        Classification::UnwrapWrapper => {
            match val {
                Value::Object(entries) => {
                    serialize_with_key_path(classifier, &entries[0].1, path)
                },
                _ => val.clone(),
            }
        },
        _ => {
            let pack = matches!(class, Classification::PackAsFieldElement);
            match val {
                Value::Object(entries) => walk_entries(classifier, val, entries, path),
                Value::Array(items) => {
                    if pack {
                        let modulus = classifier.modulus.as_ref();
                        if let Some(limbs) = limbs_of_items(items) {
                            if limbs.len() == 1 || (limbs.len() >= 4 && limbs.len() % 4 == 0) {
                                return pack_flat(&limbs, modulus);
                            }
                        }
                        if let Some(quads) = quads_of_items(items) {
                            let packed = pack_nested(&quads, modulus);
                            proof {
                                assert(packed@->Array_0 =~= packed_nested(
                                    items_view(items@),
                                    policy.modulus,
                                )->Array_0);
                            }
                            return packed;
                        }
                    }
                    walk_items(classifier, val, items, path)
                },
                Value::Number(Number::Unsigned(x)) => {
                    if pack && classifier.modulus.is_some() {
                        let mut limb: Vec<u64> = Vec::new();
                        limb.push(*x);
                        Value::String(canonical_scalar(limb.as_slice(), classifier.modulus.as_ref()))
                    } else {
                        val.clone()
                    }
                },
                _ => val.clone(),
            }
        },
    }
}

/// The transform of a whole document under the Goldilocks policy.
pub fn serialize_goldilocks_bigints(val: &Value) -> (out: Value)
    ensures
        out@ == transformed(goldilocks_policy(), val@, Seq::empty()),
{
    let classifier = Classifier::goldilocks();
    let root: Vec<String> = Vec::new();
    assert(texts(root@) =~= Seq::<Seq<char>>::empty());
    serialize_with_key_path(&classifier, val, &root)
}

/// What a hash digest becomes. A flat limb array is packed as under a
/// field-element key, with every limb read and limb 0 least significant, and
/// is not reduced: one element gives one scalar, several give the array of
/// their scalars. Any other node is transformed as a whole document under
/// the Goldilocks policy; a limb array of any other length is thereby walked
/// item by item, which keeps it as it is.
pub open spec fn digest_transformed(node: Tree) -> Tree {
    if node is Array && is_flat_limbs(node->Array_0) {
        packed_flat(node->Array_0, None)
    } else {
        transformed(goldilocks_policy(), node, Seq::empty())
    }
}

/// The export form of a hash digest.
pub fn serialize_goldilocks_digest(val: &Value) -> (out: Value)
    ensures
        out@ == digest_transformed(val@),
{
    proof {
        lemma_view_children(*val);
    }
    if let Value::Array(items) = val {
        if let Some(limbs) = limbs_of_items(items) {
            if limbs.len() == 1 || (limbs.len() >= 4 && limbs.len() % 4 == 0) {
                return pack_flat(&limbs, None);
            }
        }
    }
    serialize_goldilocks_bigints(val)
}

/// A limb array that is no flat limb array (no limb, or a number of limbs
/// that is neither one nor a multiple of four) is its own digest form.
pub proof fn lemma_digest_keeps_irregular_limbs(node: Tree)
    requires
        node is Array,
        all_limbs(node->Array_0),
        !is_flat_limbs(node->Array_0),
    ensures
        digest_transformed(node) == node,
{
    let items = node->Array_0;
    let policy = goldilocks_policy();
    let root = Seq::<Seq<char>>::empty();
    lemma_transformed_children(policy, node, root);
    assert(transformed_items(policy, items, root) =~= items);
}

} // verus!
