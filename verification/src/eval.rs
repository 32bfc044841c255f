//! Evaluation of an expression tree against a binding of input names to
//! 32-bit signed integers, memoizing each node's value on first evaluation.

use vstd::prelude::*;

use crate::ast::{ExprTree, Gate, Node};

verus! {

/// Why an evaluation failed.
#[derive(Debug, Clone, PartialEq, Eq)]
pub enum EvalError {
    /// An input reference reached during evaluation has no entry in the
    /// supplied binding; carries the unresolved name.
    UnboundInput(String),
    /// A division whose right operand evaluated to zero.
    DivisionByZero,
}

/// The mathematical shape of an `EvalError`: the unresolved name as a
/// sequence of characters.
pub enum EvalFault {
    Unbound(Seq<char>),
    DivByZero,
}

impl EvalError {
    /// The mathematical shape of this error.
    pub open spec fn fault(self) -> EvalFault {
        match self {
            EvalError::UnboundInput(name) => EvalFault::Unbound(name@),
            EvalError::DivisionByZero => EvalFault::DivByZero,
        }
    }
}

/// The mathematical shape of an evaluation result.
pub open spec fn result_fault(r: Result<i32, EvalError>) -> Result<i32, EvalFault> {
    match r {
        Ok(v) => Ok(v),
        Err(e) => Err(e.fault()),
    }
}

/// The name-to-value mapping that a sequence of `(name, value)` pairs
/// denotes: the pairs are folded in order, so on duplicate names the last
/// write wins.
pub open spec fn binding_map(s: Seq<(String, i32)>) -> Map<Seq<char>, i32>
    decreases s.len(),
{
    if s.len() == 0 {
        Map::empty()
    } else {
        binding_map(s.drop_last()).insert(s.last().0@, s.last().1)
    }
}

/// Division of 32-bit signed integers with the host's native fixed-width
/// semantics: the quotient is truncated toward zero, and the one overflowing
/// quotient (`i32::MIN / -1`) wraps around to `i32::MIN`, matching the
/// wraparound semantics of addition, subtraction and multiplication.
pub open spec fn wrap_div(a: i32, b: i32) -> i32
    recommends
        b != 0,
{
    match a.checked_div(b) {
        Some(q) => q,
        None => i32::MIN,
    }
}

/// The pure mathematical evaluation of a tree shape against `env`, with no
/// memoization involved: children evaluate left to right, the first unbound
/// input or division by zero is the result's fault.
pub open spec fn eval_tree(t: ExprTree, env: Map<Seq<char>, i32>) -> Result<i32, EvalFault>
    decreases t,
{
    match t {
        ExprTree::Input(name) => if env.contains_key(name) {
            Ok(env[name])
        } else {
            Err(EvalFault::Unbound(name))
        },
        ExprTree::Const(v) => Ok(v),
        ExprTree::Add(l, r) => match (eval_tree(*l, env), eval_tree(*r, env)) {
            (Err(e), _) => Err(e),
            (Ok(_), Err(e)) => Err(e),
            (Ok(a), Ok(b)) => Ok(a.wrapping_add(b)),
        },
        ExprTree::Sub(l, r) => match (eval_tree(*l, env), eval_tree(*r, env)) {
            (Err(e), _) => Err(e),
            (Ok(_), Err(e)) => Err(e),
            (Ok(a), Ok(b)) => Ok(a.wrapping_sub(b)),
        },
        ExprTree::Mul(l, r) => match (eval_tree(*l, env), eval_tree(*r, env)) {
            (Err(e), _) => Err(e),
            (Ok(_), Err(e)) => Err(e),
            (Ok(a), Ok(b)) => Ok(a.wrapping_mul(b)),
        },
        ExprTree::Div(l, r) => match (eval_tree(*l, env), eval_tree(*r, env)) {
            (Err(e), _) => Err(e),
            (Ok(_), Err(e)) => Err(e),
            (Ok(a), Ok(b)) => if b == 0 {
                Err(EvalFault::DivByZero)
            } else {
                Ok(wrap_div(a, b))
            },
        },
    }
}

/// The result of evaluating a node against `env`: the memoized value if one
/// is cached, else the value of its gate, with children evaluated left to
/// right and the first failure propagated.
pub open spec fn memo_eval(n: Node, env: Map<Seq<char>, i32>) -> Result<i32, EvalError>
    decreases n,
{
    if n.value is Some {
        Ok(n.value->0)
    } else {
        match n.gate {
            Gate::Input(name) => if env.contains_key(name@) {
                Ok(env[name@])
            } else {
                Err(EvalError::UnboundInput(name))
            },
            Gate::Const(v) => Ok(v),
            Gate::Add(l, r) => match (memo_eval(*l, env), memo_eval(*r, env)) {
                (Err(e), _) => Err(e),
                (Ok(_), Err(e)) => Err(e),
                (Ok(a), Ok(b)) => Ok(a.wrapping_add(b)),
            },
            Gate::Sub(l, r) => match (memo_eval(*l, env), memo_eval(*r, env)) {
                (Err(e), _) => Err(e),
                (Ok(_), Err(e)) => Err(e),
                (Ok(a), Ok(b)) => Ok(a.wrapping_sub(b)),
            },
            Gate::Mul(l, r) => match (memo_eval(*l, env), memo_eval(*r, env)) {
                (Err(e), _) => Err(e),
                (Ok(_), Err(e)) => Err(e),
                (Ok(a), Ok(b)) => Ok(a.wrapping_mul(b)),
            },
            Gate::Div(l, r) => match (memo_eval(*l, env), memo_eval(*r, env)) {
                (Err(e), _) => Err(e),
                (Ok(_), Err(e)) => Err(e),
                (Ok(a), Ok(b)) => if b == 0 {
                    Err(EvalError::DivisionByZero)
                } else {
                    Ok(wrap_div(a, b))
                },
            },
        }
    }
}

/// The node after evaluating it against `env`: each fully evaluated subtree
/// carries its memoized value, and on failure the nodes evaluated before the
/// failure point keep their memoized values while the rest stay untouched.
pub open spec fn after_eval(n: Node, env: Map<Seq<char>, i32>) -> Node
    decreases n,
{
    if n.value is Some {
        n
    } else {
        match n.gate {
            Gate::Input(name) => if env.contains_key(name@) {
                Node { gate: n.gate, value: Some(env[name@]) }
            } else {
                n
            },
            Gate::Const(v) => Node { gate: n.gate, value: Some(v) },
            Gate::Add(l, r) => match memo_eval(*l, env) {
                Err(_) => Node { gate: Gate::Add(Box::new(after_eval(*l, env)), r), value: None },
                Ok(a) => match memo_eval(*r, env) {
                    Err(_) => Node {
                        gate: Gate::Add(Box::new(after_eval(*l, env)), Box::new(after_eval(*r, env))),
                        value: None,
                    },
                    Ok(b) => Node {
                        gate: Gate::Add(Box::new(after_eval(*l, env)), Box::new(after_eval(*r, env))),
                        value: Some(a.wrapping_add(b)),
                    },
                },
            },
            Gate::Sub(l, r) => match memo_eval(*l, env) {
                Err(_) => Node { gate: Gate::Sub(Box::new(after_eval(*l, env)), r), value: None },
                Ok(a) => match memo_eval(*r, env) {
                    Err(_) => Node {
                        gate: Gate::Sub(Box::new(after_eval(*l, env)), Box::new(after_eval(*r, env))),
                        value: None,
                    },
                    Ok(b) => Node {
                        gate: Gate::Sub(Box::new(after_eval(*l, env)), Box::new(after_eval(*r, env))),
                        value: Some(a.wrapping_sub(b)),
                    },
                },
            },
            Gate::Mul(l, r) => match memo_eval(*l, env) {
                Err(_) => Node { gate: Gate::Mul(Box::new(after_eval(*l, env)), r), value: None },
                Ok(a) => match memo_eval(*r, env) {
                    Err(_) => Node {
                        gate: Gate::Mul(Box::new(after_eval(*l, env)), Box::new(after_eval(*r, env))),
                        value: None,
                    },
                    Ok(b) => Node {
                        gate: Gate::Mul(Box::new(after_eval(*l, env)), Box::new(after_eval(*r, env))),
                        value: Some(a.wrapping_mul(b)),
                    },
                },
            },
            Gate::Div(l, r) => match memo_eval(*l, env) {
                Err(_) => Node { gate: Gate::Div(Box::new(after_eval(*l, env)), r), value: None },
                Ok(a) => match memo_eval(*r, env) {
                    Err(_) => Node {
                        gate: Gate::Div(Box::new(after_eval(*l, env)), Box::new(after_eval(*r, env))),
                        value: None,
                    },
                    Ok(b) => Node {
                        gate: Gate::Div(Box::new(after_eval(*l, env)), Box::new(after_eval(*r, env))),
                        value: if b == 0 {
                            None
                        } else {
                            Some(wrap_div(a, b))
                        },
                    },
                },
            },
        }
    }
}

proof fn lemma_binding_map_found(s: Seq<(String, i32)>, k: Seq<char>, i: int)
    requires
        0 <= i < s.len(),
        s[i].0@ == k,
        forall|j: int| i < j < s.len() ==> s[j].0@ != k,
    ensures
        binding_map(s).contains_key(k),
        binding_map(s)[k] == s[i].1,
    decreases s.len(),
{
    if i < s.len() - 1 {
        lemma_binding_map_found(s.drop_last(), k, i);
    }
}

proof fn lemma_binding_map_absent(s: Seq<(String, i32)>, k: Seq<char>)
    requires
        forall|j: int| 0 <= j < s.len() ==> s[j].0@ != k,
    ensures
        !binding_map(s).contains_key(k),
    decreases s.len(),
{
    if s.len() > 0 {
        lemma_binding_map_absent(s.drop_last(), k);
    }
}

/// Looks a name up in a sequence of `(name, value)` pairs, the latest pair
/// winning on duplicate names, as `binding_map` folds them.
pub(crate) fn lookup_binding(inputs: &Vec<(String, i32)>, name: &String) -> (r: Option<i32>)
    ensures
        r == (if binding_map(inputs@).contains_key(name@) {
            Some(binding_map(inputs@)[name@])
        } else {
            None::<i32>
        }),
{
    let mut i: usize = inputs.len();
    while i > 0
        invariant
            i <= inputs@.len(),
            forall|j: int| i <= j < inputs@.len() ==> inputs@[j].0@ != name@,
        decreases i,
    {
        i = i - 1;
        if inputs[i].0 == *name {
            proof {
                lemma_binding_map_found(inputs@, name@, i as int);
            }
            return Some(inputs[i].1);
        }
    }
    proof {
        lemma_binding_map_absent(inputs@, name@);
    }
    None
}

impl Node {
    /// Evaluates this node against the given binding, returning the node's
    /// memoized value if it holds one and memoizing the computed value
    /// otherwise. Children are evaluated left to right; the first unbound
    /// input or division by zero fails the call, leaving the nodes fully
    /// evaluated before the failure point memoized.
    pub fn evaluate(&mut self, inputs: &Vec<(String, i32)>) -> (r: Result<i32, EvalError>)
        ensures
            r == memo_eval(*old(self), binding_map(inputs@)),
            *final(self) == after_eval(*old(self), binding_map(inputs@)),
        decreases *old(self),
    {
        if let Some(v) = self.value {
            return Ok(v);
        }
        let result = match &mut self.gate {
            Gate::Input(name) => match lookup_binding(inputs, name) {
                Some(v) => v,
                None => {
                    return Err(EvalError::UnboundInput(name.clone()));
                },
            },
            Gate::Const(v) => *v,
            Gate::Add(l, r) => {
                let a = l.evaluate(inputs)?;
                let b = r.evaluate(inputs)?;
                a.wrapping_add(b)
            },
            Gate::Sub(l, r) => {
                let a = l.evaluate(inputs)?;
                let b = r.evaluate(inputs)?;
                a.wrapping_sub(b)
            },
            Gate::Mul(l, r) => {
                let a = l.evaluate(inputs)?;
                let b = r.evaluate(inputs)?;
                a.wrapping_mul(b)
            },
            Gate::Div(l, r) => {
                let a = l.evaluate(inputs)?;
                let b = r.evaluate(inputs)?;
                if b == 0 {
                    return Err(EvalError::DivisionByZero);
                }
                match a.checked_div(b) {
                    Some(q) => q,
                    None => i32::MIN,
                }
            },
        };
        self.value = Some(result);
        Ok(result)
    }
}

} // verus!
