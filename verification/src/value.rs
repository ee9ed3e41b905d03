//! The document tree: JSON-shaped values and their mathematical model.

use vstd::prelude::*;

verus! {

/// A JSON number. One that fits 64 unsigned bits is held as such; any other
/// (negative, fractional, or wider) is carried as its literal text.
#[derive(Debug, PartialEq, Eq)]
pub enum Number {
    /// A number that fits 64 unsigned bits.
    Unsigned(u64),
    /// Any other number, as it is written.
    Literal(String),
}

/// The model of a [`Number`].
pub enum NumberView {
    Unsigned(u64),
    Literal(Seq<char>),
}

impl View for Number {
    type V = NumberView;

    open spec fn view(&self) -> NumberView {
        match self {
            Number::Unsigned(x) => NumberView::Unsigned(*x),
            Number::Literal(s) => NumberView::Literal(s@),
        }
    }
}

/// A node of a document. The entries of an object keep their order.
#[derive(Debug, PartialEq, Eq)]
pub enum Value {
    Null,
    Bool(bool),
    Number(Number),
    String(String),
    Array(Vec<Value>),
    /// The entries of an object as pairs of key and value, in order. A
    /// well-formed object holds no key twice.
    Object(Vec<(String, Value)>),
}

/// The model of a [`Value`]: the same tree over mathematical sequences.
pub enum Tree {
    Null,
    Bool(bool),
    Number(NumberView),
    String(Seq<char>),
    Array(Seq<Tree>),
    Object(Seq<(Seq<char>, Tree)>),
}

impl View for Value {
    type V = Tree;

    open spec fn view(&self) -> Tree
        decreases self,
    {
        match self {
            Value::Null => Tree::Null,
            Value::Bool(b) => Tree::Bool(*b),
            Value::Number(n) => Tree::Number(n@),
            Value::String(s) => Tree::String(s@),
            Value::Array(items) => Tree::Array(
                Seq::new(
                    items@.len(),
                    |i: int|
                        if 0 <= i < items@.len() {
                            items@[i].view()
                        } else {
                            Tree::Null
                        },
                ),
            ),
            Value::Object(entries) => Tree::Object(
                Seq::new(
                    entries@.len(),
                    |i: int|
                        if 0 <= i < entries@.len() {
                            (entries@[i].0@, entries@[i].1.view())
                        } else {
                            (Seq::empty(), Tree::Null)
                        },
                ),
            ),
        }
    }
}

/// No two entries have the same key.
pub open spec fn distinct_keys(entries: Seq<(Seq<char>, Tree)>) -> bool {
    forall|i: int, j: int|
        0 <= i < j < entries.len() ==> (#[trigger] entries[i]).0 != (#[trigger] entries[j]).0
}

impl Tree {
    /// No object of the tree, at any depth, holds a key twice.
    pub open spec fn well_formed(self) -> bool
        decreases self,
    {
        match self {
            Tree::Array(items) => forall|i: int|
                #![trigger items[i]]
                0 <= i < items.len() ==> items[i].well_formed(),
            Tree::Object(entries) => {
                &&& distinct_keys(entries)
                &&& forall|i: int|
                    0 <= i < entries.len() ==> (#[trigger] entries[i]).1.well_formed()
            },
            _ => true,
        }
    }
}

/// The texts of a sequence of strings, in order.
pub open spec fn texts(keys: Seq<String>) -> Seq<Seq<char>> {
    Seq::new(keys.len(), |i: int| keys[i]@)
}

/// The models of the items of an array, in order.
pub open spec fn items_view(items: Seq<Value>) -> Seq<Tree> {
    Seq::new(items.len(), |i: int| items[i]@)
}

/// The models of the entries of an object, in order.
pub open spec fn entries_view(entries: Seq<(String, Value)>) -> Seq<(Seq<char>, Tree)> {
    Seq::new(entries.len(), |i: int| (entries[i].0@, entries[i].1@))
}

/// The model of an array or object is made of the models of its children.
pub proof fn lemma_view_children(v: Value)
    ensures
        v matches Value::Array(items) ==> v@ == Tree::Array(items_view(items@)),
        v matches Value::Object(entries) ==> v@ == Tree::Object(entries_view(entries@)),
{
    reveal_with_fuel(<Value as View>::view, 2);
    match v {
        Value::Array(items) => {
            assert(v@->Array_0 =~= items_view(items@));
        },
        Value::Object(entries) => {
            assert(v@->Object_0 =~= entries_view(entries@));
        },
        _ => {},
    }
}

impl Clone for Number {
    fn clone(&self) -> (copy: Self)
        ensures
            copy@ == self@,
    {
        match self {
            Number::Unsigned(x) => Number::Unsigned(*x),
            Number::Literal(s) => Number::Literal(s.clone()),
        }
    }
}

impl Clone for Value {
    fn clone(&self) -> (copy: Self)
        ensures
            copy@ == self@,
        decreases self,
    {
        match self {
            Value::Null => Value::Null,
            Value::Bool(b) => Value::Bool(*b),
            Value::Number(n) => Value::Number(n.clone()),
            Value::String(s) => Value::String(s.clone()),
            Value::Array(items) => {
                let mut out: Vec<Value> = Vec::new();
                let mut i: usize = 0;
                while i < items.len()
                    invariant
                        i <= items.len(),
                        out@.len() == i,
                        self == Value::Array(*items),
                        forall|k: int| 0 <= k < i ==> (#[trigger] out@[k])@ == items@[k]@,
                    decreases items.len() - i,
                {
                    assert(decreases_to!(self => self->Array_0));
                    let item = items[i].clone();
                    out.push(item);
                    i = i + 1;
                }
                let copy = Value::Array(out);
                proof {
                    lemma_view_children(copy);
                    lemma_view_children(*self);
                    assert(items_view(out@) =~= items_view(items@));
                }
                copy
            },
            Value::Object(entries) => {
                let mut out: Vec<(String, Value)> = Vec::new();
                let mut i: usize = 0;
                while i < entries.len()
                    invariant
                        i <= entries.len(),
                        out@.len() == i,
                        self == Value::Object(*entries),
                        forall|k: int|
                            0 <= k < i ==> (#[trigger] out@[k]).0@ == entries@[k].0@ && out@[k].1@
                                == entries@[k].1@,
                    decreases entries.len() - i,
                {
                    let key = entries[i].0.clone();
                    assert(decreases_to!(self => self->Object_0));
                    let item = entries[i].1.clone();
                    out.push((key, item));
                    i = i + 1;
                }
                let copy = Value::Object(out);
                proof {
                    lemma_view_children(copy);
                    lemma_view_children(*self);
                    assert(entries_view(out@) =~= entries_view(entries@));
                }
                copy
            },
        }
    }
}

/// Whether the key of entry `at` occurs among the entries before it.
fn key_seen_before(entries: &Vec<(String, Value)>, at: usize) -> (seen: bool)
    requires
        at < entries.len(),
    ensures
        seen == exists|k: int| 0 <= k < at && (#[trigger] entries@[k]).0@ == entries@[at as int].0@,
{
    let mut k: usize = 0;
    while k < at
        invariant
            k <= at < entries.len(),
            forall|j: int| 0 <= j < k ==> (#[trigger] entries@[j]).0@ != entries@[at as int].0@,
        decreases at - k,
    {
        if entries[k].0 == entries[at].0 {
            return true;
        }
        k = k + 1;
    }
    false
}

impl Value {
    /// Whether no object of this document, at any depth, holds a key twice.
    pub fn is_well_formed(&self) -> (well_formed: bool)
        ensures
            well_formed == self@.well_formed(),
        decreases self,
    {
        proof {
            lemma_view_children(*self);
        }
        match self {
            Value::Array(items) => {
                let ghost trees = items_view(items@);
                let mut i: usize = 0;
                while i < items.len()
                    invariant
                        i <= items.len(),
                        self == Value::Array(*items),
                        self@ == Tree::Array(trees),
                        trees == items_view(items@),
                        forall|k: int| 0 <= k < i ==> (#[trigger] trees[k]).well_formed(),
                    decreases items.len() - i,
                {
                    if !items[i].is_well_formed() {
                        assert(self@->Array_0[i as int] == trees[i as int]);
                        return false;
                    }
                    i = i + 1;
                }
                true
            },
            Value::Object(entries) => {
                let ghost trees = entries_view(entries@);
                let mut i: usize = 0;
                while i < entries.len()
                    invariant
                        i <= entries.len(),
                        self == Value::Object(*entries),
                        self@ == Tree::Object(trees),
                        trees == entries_view(entries@),
                        forall|k: int| 0 <= k < i ==> (#[trigger] trees[k]).1.well_formed(),
                        forall|a: int, b: int|
                            0 <= a < b < i ==> (#[trigger] trees[a]).0 != (#[trigger] trees[b]).0,
                    decreases entries.len() - i,
                {
                    proof {
                        assert(trees[i as int] == (entries@[i as int].0@, entries@[i as int].1@));
                    }
                    if key_seen_before(entries, i) {
                        proof {
                            let k = choose|k: int|
                                0 <= k < i && (#[trigger] entries@[k]).0@ == entries@[i as int].0@;
                            assert(trees[k].0 == trees[i as int].0);
                        }
                        return false;
                    }
                    if !entries[i].1.is_well_formed() {
                        return false;
                    }
                    i = i + 1;
                }
                true
            },
            _ => true,
        }
    }
}

} // verus!
