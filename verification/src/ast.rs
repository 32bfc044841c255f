//! The expression tree: `Gate` (a node's operation), `Node` (a gate plus a
//! memoized value), and the mathematical tree `ExprTree` that contracts
//! speak of.

use vstd::prelude::*;

verus! {

/// The mathematical shape of an expression tree: what a `Node` denotes once
/// the per-node value caches are erased. Contracts and the grammar
/// specification are stated over this type.
#[verifier::ext_equal]
pub enum ExprTree {
    Input(Seq<char>),
    Add(Box<ExprTree>, Box<ExprTree>),
    Sub(Box<ExprTree>, Box<ExprTree>),
    Mul(Box<ExprTree>, Box<ExprTree>),
    Div(Box<ExprTree>, Box<ExprTree>),
    Const(i32),
}

impl ExprTree {
    /// The number of binary-operator nodes in the tree. Rendering advances
    /// its counter twice per binary node, so this bounds the counter.
    pub open spec fn bin_count(self) -> nat
        decreases self,
    {
        match self {
            ExprTree::Input(_) => 0,
            ExprTree::Const(_) => 0,
            ExprTree::Add(l, r) => 1 + l.bin_count() + r.bin_count(),
            ExprTree::Sub(l, r) => 1 + l.bin_count() + r.bin_count(),
            ExprTree::Mul(l, r) => 1 + l.bin_count() + r.bin_count(),
            ExprTree::Div(l, r) => 1 + l.bin_count() + r.bin_count(),
        }
    }
}

/// A tree node's operation: an input reference by name, a 32-bit signed
/// constant, or one of four binary arithmetic operators owning two subtrees.
#[derive(Debug)]
pub enum Gate {
    Input(String),
    Add(Box<Node>, Box<Node>),
    Sub(Box<Node>, Box<Node>),
    Mul(Box<Node>, Box<Node>),
    Div(Box<Node>, Box<Node>),
    Const(i32),
}

/// One element of the expression tree: a `Gate` together with a memoized
/// evaluation result. Once `value` is populated it is never recomputed;
/// a node is evaluated at most once per instantiation.
#[derive(Debug)]
pub struct Node {
    pub gate: Gate,
    pub value: Option<i32>,
}

impl Node {
    /// The mathematical tree this node denotes, with the value caches erased.
    pub open spec fn tree(self) -> ExprTree
        decreases self,
    {
        match self.gate {
            Gate::Input(name) => ExprTree::Input(name@),
            Gate::Const(v) => ExprTree::Const(v),
            Gate::Add(l, r) => ExprTree::Add(Box::new(l.tree()), Box::new(r.tree())),
            Gate::Sub(l, r) => ExprTree::Sub(Box::new(l.tree()), Box::new(r.tree())),
            Gate::Mul(l, r) => ExprTree::Mul(Box::new(l.tree()), Box::new(r.tree())),
            Gate::Div(l, r) => ExprTree::Div(Box::new(l.tree()), Box::new(r.tree())),
        }
    }

    /// Holds when no node of the tree has a memoized value yet, as is the
    /// case for every tree the parser builds.
    pub open spec fn uncached(self) -> bool
        decreases self,
    {
        self.value is None && match self.gate {
            Gate::Input(_) => true,
            Gate::Const(_) => true,
            Gate::Add(l, r) => l.uncached() && r.uncached(),
            Gate::Sub(l, r) => l.uncached() && r.uncached(),
            Gate::Mul(l, r) => l.uncached() && r.uncached(),
            Gate::Div(l, r) => l.uncached() && r.uncached(),
        }
    }

    /// Wraps a gate as a node whose value has not been computed yet.
    pub fn new(gate: Gate) -> (n: Self)
        ensures
            n == (Node { gate, value: None::<i32> }),
    {
        Node { gate, value: None }
    }
}

impl Clone for Node {
    /// A deep copy: duplicates the entire subtree including each node's
    /// cached value.
    fn clone(&self) -> (res: Self)
        ensures
            res == *self,
        decreases self,
    {
        Node {
            gate: match &self.gate {
                Gate::Input(name) => Gate::Input(name.clone()),
                Gate::Add(l, r) => Gate::Add(Box::new((&**l).clone()), Box::new((&**r).clone())),
                Gate::Sub(l, r) => Gate::Sub(Box::new((&**l).clone()), Box::new((&**r).clone())),
                Gate::Mul(l, r) => Gate::Mul(Box::new((&**l).clone()), Box::new((&**r).clone())),
                Gate::Div(l, r) => Gate::Div(Box::new((&**l).clone()), Box::new((&**r).clone())),
                Gate::Const(v) => Gate::Const(*v),
            },
            value: self.value,
        }
    }
}

} // verus!
