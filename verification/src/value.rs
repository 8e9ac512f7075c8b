//! The value tree that parsing produces and printing consumes.

use vstd::prelude::*;
use crate::floats::{close, floats_close};

verus! {

/// A parsed data expression.
///
/// Sequences keep the order in which their items were written. A `SetOf` is
/// neither sorted nor deduplicated, and the keys of a `Dict` need not be
/// distinct. A `Float` holds the IEEE-754 bit pattern of a 64-bit float.
///
/// Two values are equal where they are `alike`: floats are compared with a
/// small tolerance, so that equality is not transitive.
#[derive(Debug, Eq)]
pub enum Value {
    Bool(bool),
    Str(String),
    Int(i64),
    Float(u64),
    Tuple(Vec<Value>),
    List(Vec<Value>),
    SetOf(Vec<Value>),
    Dict(Vec<(Value, Value)>),
    Constructor(String, Vec<(String, Value)>),
    Symbol(String),
}

/// The mathematical content of a [`Value`].
pub enum Tree {
    Bool(bool),
    Str(Seq<char>),
    Int(i64),
    Float(u64),
    Tuple(Seq<Tree>),
    List(Seq<Tree>),
    SetOf(Seq<Tree>),
    Dict(Seq<(Tree, Tree)>),
    Constructor(Seq<char>, Seq<(Seq<char>, Tree)>),
    Symbol(Seq<char>),
}

/// The content of a value.
pub open spec fn tree_of(v: Value) -> Tree
    decreases v, 1int,
{
    match v {
        Value::Bool(b) => Tree::Bool(b),
        Value::Str(s) => Tree::Str(s@),
        Value::Int(i) => Tree::Int(i),
        Value::Float(bits) => Tree::Float(bits),
        Value::Tuple(xs) => Tree::Tuple(trees(xs@)),
        Value::List(xs) => Tree::List(trees(xs@)),
        Value::SetOf(xs) => Tree::SetOf(trees(xs@)),
        Value::Dict(ps) => Tree::Dict(pair_trees(ps@)),
        Value::Constructor(name, args) => Tree::Constructor(name@, named_trees(args@)),
        Value::Symbol(s) => Tree::Symbol(s@),
    }
}

/// The contents of values.
pub open spec fn trees(xs: Seq<Value>) -> Seq<Tree>
    decreases xs, 0int,
{
    Seq::new(
        xs.len(),
        |i: int|
            if 0 <= i < xs.len() {
                tree_of(xs[i])
            } else {
                Tree::Bool(false)
            },
    )
}

/// The contents of pairs of values.
pub open spec fn pair_trees(ps: Seq<(Value, Value)>) -> Seq<(Tree, Tree)>
    decreases ps, 0int,
{
    Seq::new(
        ps.len(),
        |i: int|
            if 0 <= i < ps.len() {
                (tree_of(ps[i].0), tree_of(ps[i].1))
            } else {
                (Tree::Bool(false), Tree::Bool(false))
            },
    )
}

/// The contents of named values.
pub open spec fn named_trees(ps: Seq<(String, Value)>) -> Seq<(Seq<char>, Tree)>
    decreases ps, 0int,
{
    Seq::new(
        ps.len(),
        |i: int|
            if 0 <= i < ps.len() {
                (ps[i].0@, tree_of(ps[i].1))
            } else {
                (Seq::empty(), Tree::Bool(false))
            },
    )
}

impl View for Value {
    type V = Tree;

    open spec fn view(&self) -> Tree {
        tree_of(*self)
    }
}

/// The contents of values and one more are their contents and that of the
/// one.
pub proof fn lemma_trees_push(xs: Seq<Value>, x: Value)
    ensures
        trees(xs.push(x)) == trees(xs).push(x@),
{
    assert(trees(xs.push(x)) =~= trees(xs).push(x@));
}

/// The contents of pairs and one more are their contents and that of the one.
pub proof fn lemma_pair_trees_push(ps: Seq<(Value, Value)>, p: (Value, Value))
    ensures
        pair_trees(ps.push(p)) == pair_trees(ps).push((p.0@, p.1@)),
{
    assert(pair_trees(ps.push(p)) =~= pair_trees(ps).push((p.0@, p.1@)));
}

/// The contents of named values and one more are their contents and that of
/// the one.
pub proof fn lemma_named_trees_push(ps: Seq<(String, Value)>, p: (String, Value))
    ensures
        named_trees(ps.push(p)) == named_trees(ps).push((p.0@, p.1@)),
{
    assert(named_trees(ps.push(p)) =~= named_trees(ps).push((p.0@, p.1@)));
}

/// Whether two values are alike: whether they have the same form and, in the
/// same order, parts that are alike. Two floats are alike where they are
/// close; whatever else holds no value is alike where it is equal.
pub open spec fn alike(a: Tree, b: Tree) -> bool
    decreases a, 1int,
{
    match (a, b) {
        (Tree::Bool(x), Tree::Bool(y)) => x == y,
        (Tree::Str(x), Tree::Str(y)) => x == y,
        (Tree::Int(x), Tree::Int(y)) => x == y,
        (Tree::Float(x), Tree::Float(y)) => close(x, y),
        (Tree::Tuple(x), Tree::Tuple(y)) => alike_items(x, y),
        (Tree::List(x), Tree::List(y)) => alike_items(x, y),
        (Tree::SetOf(x), Tree::SetOf(y)) => alike_items(x, y),
        (Tree::Dict(x), Tree::Dict(y)) => alike_entries(x, y),
        (Tree::Constructor(n, x), Tree::Constructor(m, y)) => n == m && alike_kwargs(x, y),
        (Tree::Symbol(x), Tree::Symbol(y)) => x == y,
        _ => false,
    }
}

/// Whether two sequences have as many items, each alike the other's at its
/// place.
pub open spec fn alike_items(xs: Seq<Tree>, ys: Seq<Tree>) -> bool
    decreases xs, 0int,
{
    xs.len() == ys.len() && forall|i: int| 0 <= i < xs.len() ==> alike(#[trigger] xs[i], ys[i])
}

/// Whether two dictionaries have as many entries, each with a key and a
/// value alike the other's at its place.
pub open spec fn alike_entries(xs: Seq<(Tree, Tree)>, ys: Seq<(Tree, Tree)>) -> bool
    decreases xs, 0int,
{
    xs.len() == ys.len() && forall|i: int|
        0 <= i < xs.len() ==> alike((#[trigger] xs[i]).0, ys[i].0) && alike(xs[i].1, ys[i].1)
}

/// Whether two constructors have as many arguments, each with the key of the
/// other's at its place and a value alike it.
pub open spec fn alike_kwargs(xs: Seq<(Seq<char>, Tree)>, ys: Seq<(Seq<char>, Tree)>) -> bool
    decreases xs, 0int,
{
    xs.len() == ys.len() && forall|i: int|
        0 <= i < xs.len() ==> (#[trigger] xs[i]).0 == ys[i].0 && alike(xs[i].1, ys[i].1)
}

/// Whether a value holds no float.
pub open spec fn holds_no_float(tree: Tree) -> bool
    decreases tree, 1int,
{
    match tree {
        Tree::Float(_) => false,
        Tree::Tuple(xs) => forall|i: int| 0 <= i < xs.len() ==> holds_no_float(#[trigger] xs[i]),
        Tree::List(xs) => forall|i: int| 0 <= i < xs.len() ==> holds_no_float(#[trigger] xs[i]),
        Tree::SetOf(xs) => forall|i: int| 0 <= i < xs.len() ==> holds_no_float(#[trigger] xs[i]),
        Tree::Dict(ps) => forall|i: int|
            0 <= i < ps.len() ==> holds_no_float((#[trigger] ps[i]).0) && holds_no_float(ps[i].1),
        Tree::Constructor(_, args) => forall|i: int|
            0 <= i < args.len() ==> holds_no_float((#[trigger] args[i]).1),
        _ => true,
    }
}

/// Whether the items of two sequences are alike.
fn same_items(a: &Vec<Value>, b: &Vec<Value>) -> (same: bool)
    ensures
        same == alike_items(trees(a@), trees(b@)),
    decreases a, 0int,
{
    if a.len() != b.len() {
        return false;
    }
    for i in 0..a.len()
        invariant
            a@.len() == b@.len(),
            forall|j: int| 0 <= j < i ==> alike(#[trigger] trees(a@)[j], trees(b@)[j]),
    {
        if !a[i].same(&b[i]) {
            assert(!alike(trees(a@)[i as int], trees(b@)[i as int]));
            return false;
        }
    }
    true
}

/// Whether the entries of two dictionaries are alike.
fn same_pairs(a: &Vec<(Value, Value)>, b: &Vec<(Value, Value)>) -> (same: bool)
    ensures
        same == alike_entries(pair_trees(a@), pair_trees(b@)),
    decreases a, 0int,
{
    if a.len() != b.len() {
        return false;
    }
    for i in 0..a.len()
        invariant
            a@.len() == b@.len(),
            forall|j: int|
                0 <= j < i ==> alike((#[trigger] pair_trees(a@)[j]).0, pair_trees(b@)[j].0)
                    && alike(pair_trees(a@)[j].1, pair_trees(b@)[j].1),
    {
        if !a[i].0.same(&b[i].0) || !a[i].1.same(&b[i].1) {
            let ghost x = pair_trees(a@)[i as int];
            let ghost y = pair_trees(b@)[i as int];
            assert(!alike(x.0, y.0) || !alike(x.1, y.1));
            return false;
        }
    }
    true
}

/// Whether the arguments of two constructors are alike.
fn same_named(a: &Vec<(String, Value)>, b: &Vec<(String, Value)>) -> (same: bool)
    ensures
        same == alike_kwargs(named_trees(a@), named_trees(b@)),
    decreases a, 0int,
{
    if a.len() != b.len() {
        return false;
    }
    for i in 0..a.len()
        invariant
            a@.len() == b@.len(),
            forall|j: int|
                0 <= j < i ==> (#[trigger] named_trees(a@)[j]).0 == named_trees(b@)[j].0
                    && alike(named_trees(a@)[j].1, named_trees(b@)[j].1),
    {
        if a[i].0 != b[i].0 || !a[i].1.same(&b[i].1) {
            let ghost x = named_trees(a@)[i as int];
            let ghost y = named_trees(b@)[i as int];
            assert(x.0 != y.0 || !alike(x.1, y.1));
            return false;
        }
    }
    true
}

impl Value {
    /// Whether this value and `other` are alike: whether they have the same
    /// form and, in the same order, parts that are alike. Two floats are alike
    /// where both are finite and differ by no more than the machine epsilon.
    pub fn same(&self, other: &Value) -> (same: bool)
        ensures
            same == alike(self@, other@),
        decreases self, 1int,
    {
        match (self, other) {
            (Value::Bool(x), Value::Bool(y)) => *x == *y,
            (Value::Str(x), Value::Str(y)) => *x == *y,
            (Value::Int(x), Value::Int(y)) => *x == *y,
            (Value::Float(x), Value::Float(y)) => floats_close(*x, *y),
            (Value::Tuple(x), Value::Tuple(y)) => same_items(x, y),
            (Value::List(x), Value::List(y)) => same_items(x, y),
            (Value::SetOf(x), Value::SetOf(y)) => same_items(x, y),
            (Value::Dict(x), Value::Dict(y)) => same_pairs(x, y),
            (Value::Constructor(a, x), Value::Constructor(b, y)) => *a == *b && same_named(x, y),
            (Value::Symbol(x), Value::Symbol(y)) => *x == *y,
            _ => false,
        }
    }
}

/// Copies of the items of a sequence.
fn copy_items(items: &Vec<Value>) -> (copies: Vec<Value>)
    ensures
        trees(copies@) == trees(items@),
    decreases items, 0int,
{
    let mut copies: Vec<Value> = Vec::new();
    for i in 0..items.len()
        invariant
            copies@.len() == i,
            forall|j: int| 0 <= j < i ==> copies@[j]@ == items@[j]@,
    {
        copies.push(items[i].clone());
    }
    assert(trees(copies@) =~= trees(items@));
    copies
}

/// Copies of the entries of a dictionary.
fn copy_pairs(pairs: &Vec<(Value, Value)>) -> (copies: Vec<(Value, Value)>)
    ensures
        pair_trees(copies@) == pair_trees(pairs@),
    decreases pairs, 0int,
{
    let mut copies: Vec<(Value, Value)> = Vec::new();
    for i in 0..pairs.len()
        invariant
            copies@.len() == i,
            forall|j: int|
                0 <= j < i ==> copies@[j].0@ == pairs@[j].0@ && copies@[j].1@ == pairs@[j].1@,
    {
        copies.push((pairs[i].0.clone(), pairs[i].1.clone()));
    }
    assert(pair_trees(copies@) =~= pair_trees(pairs@));
    copies
}

/// Copies of the arguments of a constructor.
fn copy_named(args: &Vec<(String, Value)>) -> (copies: Vec<(String, Value)>)
    ensures
        named_trees(copies@) == named_trees(args@),
    decreases args, 0int,
{
    let mut copies: Vec<(String, Value)> = Vec::new();
    for i in 0..args.len()
        invariant
            copies@.len() == i,
            forall|j: int|
                0 <= j < i ==> copies@[j].0@ == args@[j].0@ && copies@[j].1@ == args@[j].1@,
    {
        copies.push((args[i].0.clone(), args[i].1.clone()));
    }
    assert(named_trees(copies@) =~= named_trees(args@));
    copies
}

impl Clone for Value {
    /// A copy of this value, with the same content.
    fn clone(&self) -> (copy: Value)
        ensures
            copy@ == self@,
        decreases self, 1int,
    {
        match self {
            Value::Bool(x) => Value::Bool(*x),
            Value::Str(x) => Value::Str(x.clone()),
            Value::Int(x) => Value::Int(*x),
            Value::Float(x) => Value::Float(*x),
            Value::Tuple(xs) => {
                let copies = copy_items(xs);
                Value::Tuple(copies)
            },
            Value::List(xs) => {
                let copies = copy_items(xs);
                Value::List(copies)
            },
            Value::SetOf(xs) => {
                let copies = copy_items(xs);
                Value::SetOf(copies)
            },
            Value::Dict(pairs) => {
                let copies = copy_pairs(pairs);
                Value::Dict(copies)
            },
            Value::Constructor(name, args) => {
                let copies = copy_named(args);
                let copied_name = name.clone();
                Value::Constructor(copied_name, copies)
            },
            Value::Symbol(x) => Value::Symbol(x.clone()),
        }
    }
}

impl PartialEq for Value {
    /// Whether this value and `other` are alike.
    fn eq(&self, other: &Value) -> (same: bool) {
        self.same(other)
    }
}

impl vstd::std_specs::cmp::PartialEqSpecImpl for Value {
    open spec fn obeys_eq_spec() -> bool {
        true
    }

    open spec fn eq_spec(&self, other: &Value) -> bool {
        alike(self@, other@)
    }
}

} // verus!
