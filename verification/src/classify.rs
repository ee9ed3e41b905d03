//! The path classifier: which treatment a node gets, decided by the object
//! keys that lead to it and by its own shape.

use crate::limbs::Modulus;
use crate::value::{lemma_view_children, texts, Tree, Value};
use vstd::prelude::*;
use vstd::string::StringExecFns;

verus! {

/// The treatment of one node.
#[derive(Debug, Clone, Copy, PartialEq, Eq)]
pub enum Classification {
    /// The node holds field elements as limbs, to be packed.
    PackAsFieldElement,
    /// The node is a wrapper object, to be replaced by the array it wraps.
    UnwrapWrapper,
    /// No rule applies: containers are walked, scalars are kept.
    Passthrough,
    /// The node is kept exactly as it is, with everything below it.
    Raw,
}

/// The key of the single entry of a wrapper object.
pub open spec fn wrapper_key() -> Seq<char> {
    "elements"@
}

/// A wrapper object: exactly one entry, keyed by the wrapper key, holding an
/// array.
pub open spec fn is_wrapper(node: Tree) -> bool {
    &&& node is Object
    &&& node->Object_0.len() == 1
    &&& node->Object_0[0].0 == wrapper_key()
    &&& node->Object_0[0].1 is Array
}

/// The configuration of an export: the keys under which field elements are
/// found, the keys whose content is kept untouched, and the prime modulo
/// which packed values are reduced, if any.
#[derive(Debug)]
pub struct Classifier {
    pub field_keys: Vec<String>,
    pub raw_keys: Vec<String>,
    pub modulus: Option<Modulus>,
}

/// The model of a [`Classifier`].
pub struct Policy {
    pub field_keys: Seq<Seq<char>>,
    pub raw_keys: Seq<Seq<char>>,
    pub modulus: Option<nat>,
}

impl View for Classifier {
    type V = Policy;

    open spec fn view(&self) -> Policy {
        Policy {
            field_keys: texts(self.field_keys@),
            raw_keys: texts(self.raw_keys@),
            modulus: match self.modulus {
                Some(m) => Some(m@),
                None => None,
            },
        }
    }
}

/// The keys under which a Plonky2 proof and its circuit data hold field
/// elements: Merkle siblings, the circuit digest, and the commitment caps.
pub open spec fn standard_field_keys() -> Seq<Seq<char>> {
    seq![
        "siblings"@,
        "constants_sigmas_cap"@,
        "circuit_digest"@,
        "wires_cap"@,
        "quotient_polys_cap"@,
        "plonk_zs_partial_products_cap"@,
    ]
}

/// The policy of a same-field export over the Goldilocks field: the
/// standard field-element keys, no raw key, reduction modulo the Goldilocks
/// prime.
pub open spec fn goldilocks_policy() -> Policy {
    Policy {
        field_keys: standard_field_keys(),
        raw_keys: Seq::empty(),
        modulus: Some(0xFFFF_FFFF_0000_0001nat),
    }
}

impl Policy {
    /// The last key of `path` is one of the raw keys.
    pub open spec fn is_raw(self, path: Seq<Seq<char>>) -> bool {
        path.len() > 0 && self.raw_keys.contains(path.last())
    }

    /// The last key of `path` is one of the field-element keys, and not a
    /// raw key.
    pub open spec fn is_field(self, path: Seq<Seq<char>>) -> bool {
        path.len() > 0 && self.field_keys.contains(path.last()) && !self.is_raw(path)
    }

    /// The treatment of `node` at `path`. Raw keys are checked first, then
    /// the wrapper shape, then the field-element keys.
    pub open spec fn classify(self, node: Tree, path: Seq<Seq<char>>) -> Classification {
        if self.is_raw(path) {
            Classification::Raw
        } else if is_wrapper(node) {
            Classification::UnwrapWrapper
        } else if self.is_field(path) {
            Classification::PackAsFieldElement
        } else {
            Classification::Passthrough
        }
    }
}

/// Whether `key` is one of `keys`.
pub fn key_listed(keys: &Vec<String>, key: &String) -> (listed: bool)
    ensures
        listed == texts(keys@).contains(key@),
{
    let mut i: usize = 0;
    while i < keys.len()
        invariant
            i <= keys.len(),
            forall|k: int| 0 <= k < i ==> texts(keys@)[k] != key@,
        decreases keys.len() - i,
    {
        if keys[i] == *key {
            assert(texts(keys@)[i as int] == key@);
            return true;
        }
        i = i + 1;
    }
    false
}

/// Whether `node` is a wrapper object.
pub fn is_wrapper_object(node: &Value) -> (wrapper: bool)
    ensures
        wrapper == is_wrapper(node@),
{
    proof {
        lemma_view_children(*node);
    }
    match node {
        Value::Object(entries) => {
            if entries.len() != 1 {
                return false;
            }
            let sentinel = String::from_str("elements");
            match &entries[0].1 {
                Value::Array(_) => entries[0].0 == sentinel,
                _ => false,
            }
        },
        _ => false,
    }
}

impl Classifier {
    /// A classifier with the given keys and modulus.
    pub fn new(field_keys: Vec<String>, raw_keys: Vec<String>, modulus: Option<Modulus>) -> (made:
        Classifier)
        ensures
            made.field_keys == field_keys,
            made.raw_keys == raw_keys,
            made.modulus == modulus,
    {
        Classifier { field_keys, raw_keys, modulus }
    }

    /// The classifier of a same-field export over the Goldilocks field.
    pub fn goldilocks() -> (made: Classifier)
        ensures
            made@ == goldilocks_policy(),
    {
        let mut field_keys: Vec<String> = Vec::new();
        field_keys.push(String::from_str("siblings"));
        field_keys.push(String::from_str("constants_sigmas_cap"));
        field_keys.push(String::from_str("circuit_digest"));
        field_keys.push(String::from_str("wires_cap"));
        field_keys.push(String::from_str("quotient_polys_cap"));
        field_keys.push(String::from_str("plonk_zs_partial_products_cap"));
        let raw_keys: Vec<String> = Vec::new();
        let made = Classifier { field_keys, raw_keys, modulus: Some(Modulus::goldilocks()) };
        proof {
            assert(texts(made.field_keys@) =~= standard_field_keys());
            assert(texts(made.raw_keys@) =~= Seq::<Seq<char>>::empty());
        }
        made
    }

    /// Whether the last key of `key_path` is a raw key.
    pub fn is_raw(&self, key_path: &Vec<String>) -> (raw: bool)
        ensures
            raw == self@.is_raw(texts(key_path@)),
    {
        if key_path.len() == 0 {
            return false;
        }
        key_listed(&self.raw_keys, &key_path[key_path.len() - 1])
    }

    /// Whether the last key of `key_path` is a field-element key and no raw
    /// key.
    pub fn is_field(&self, key_path: &Vec<String>) -> (field: bool)
        ensures
            field == self@.is_field(texts(key_path@)),
    {
        if key_path.len() == 0 {
            return false;
        }
        let last = &key_path[key_path.len() - 1];
        key_listed(&self.field_keys, last) && !key_listed(&self.raw_keys, last)
    }

    /// The treatment of `node` at `key_path`.
    pub fn classify(&self, node: &Value, key_path: &Vec<String>) -> (class: Classification)
        ensures
            class == self@.classify(node@, texts(key_path@)),
    {
        if self.is_raw(key_path) {
            Classification::Raw
        } else if is_wrapper_object(node) {
            Classification::UnwrapWrapper
        } else if self.is_field(key_path) {
            Classification::PackAsFieldElement
        } else {
            Classification::Passthrough
        }
    }
}

} // verus!
