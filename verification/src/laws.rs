//! The library's general laws, proved once and for all: the first
//! evaluation of a freshly parsed tree is the pure mathematical evaluation
//! of its shape, and a memoized tree keeps answering with its first result.

use vstd::prelude::*;

use crate::ast::{Gate, Node};
use crate::eval::{after_eval, eval_tree, memo_eval, result_fault};

verus! {

/// First-call determinism: evaluating a tree none of whose nodes holds a
/// memoized value yet gives exactly the pure evaluation of its shape
/// against the binding — a function of the shape and the binding alone.
pub proof fn lemma_first_eval_is_pure(n: Node, env: Map<Seq<char>, i32>)
    requires
        n.uncached(),
    ensures
        result_fault(memo_eval(n, env)) == eval_tree(n.tree(), env),
    decreases n,
{
    match n.gate {
        Gate::Input(_) => {},
        Gate::Const(_) => {},
        Gate::Add(l, r) => {
            lemma_first_eval_is_pure(*l, env);
            lemma_first_eval_is_pure(*r, env);
        },
        Gate::Sub(l, r) => {
            lemma_first_eval_is_pure(*l, env);
            lemma_first_eval_is_pure(*r, env);
        },
        Gate::Mul(l, r) => {
            lemma_first_eval_is_pure(*l, env);
            lemma_first_eval_is_pure(*r, env);
        },
        Gate::Div(l, r) => {
            lemma_first_eval_is_pure(*l, env);
            lemma_first_eval_is_pure(*r, env);
        },
    }
}

/// After a successful evaluation the root node holds its result as the
/// memoized value.
pub proof fn lemma_successful_eval_memoizes_root(n: Node, env: Map<Seq<char>, i32>)
    requires
        memo_eval(n, env) is Ok,
    ensures
        after_eval(n, env).value == Some(memo_eval(n, env)->Ok_0),
{
}

/// The memoization law: once a tree has evaluated successfully, evaluating
/// it again — against any binding, equal to the first or not — returns the
/// first call's result unchanged and leaves the tree as it was.
pub proof fn lemma_reevaluation_returns_first_result(
    n: Node,
    env1: Map<Seq<char>, i32>,
    env2: Map<Seq<char>, i32>,
)
    requires
        memo_eval(n, env1) is Ok,
    ensures
        memo_eval(after_eval(n, env1), env2) == memo_eval(n, env1),
        after_eval(after_eval(n, env1), env2) == after_eval(n, env1),
{
    lemma_successful_eval_memoizes_root(n, env1);
}

} // verus!
