//! The public handle: a circuit owns the root of a parsed expression tree
//! and exposes construction from text, evaluation against a binding, and
//! rendering as a Solidity contract.

use vstd::prelude::*;

use crate::ast::Node;
use crate::eval::{after_eval, binding_map, memo_eval, EvalError};
use crate::parser::{lemma_parse_expression_consumed, parse_expression, parse_expression_str};
use crate::render::render_tree;
use vstd::string::{StrSliceExecFns, StringExecFns};

verus! {

/// Why constructing a circuit from an expression string failed.
#[derive(Debug, Clone, PartialEq, Eq)]
pub enum ParseError {
    /// The text does not conform to the grammar.
    Syntax,
    /// A leading expression parsed, but unconsumed text follows it.
    TrailingInput,
}

/// A parsed arithmetic circuit: the root node of an expression tree.
pub struct ArithmeticCircuit {
    root: Node,
}

impl View for ArithmeticCircuit {
    type V = Node;

    /// A circuit is seen as its root node.
    closed spec fn view(&self) -> Node {
        self.root
    }
}

/// The fixed Solidity contract template around a rendered expression body.
pub open spec fn solidity_text(body: Seq<char>) -> Seq<char> {
    "\npragma solidity ^0.8.0;\n\ncontract ArithmeticCircuit {\n    function verify(int256[] memory x, int256[] memory y) public pure returns (int256) {\n        return "@
        + body
        + ";\n    }\n}\n"@
}

impl ArithmeticCircuit {
    /// Wraps a root node as a circuit.
    pub fn new(root: Node) -> (c: Self)
        ensures
            c@ == root,
    {
        ArithmeticCircuit { root }
    }

    /// Parses a whole expression string into a circuit. Fails exactly when
    /// the text holds no leading expression of the grammar, or when text
    /// remains after the longest leading expression.
    pub fn from_expression(expr: &str) -> (r: Result<Self, ParseError>)
        ensures
            match r {
                Ok(c) => {
                    &&& c@.uncached()
                    &&& parse_expression(expr@) == Some((c@.tree(), expr@.len() as int))
                    &&& c@.tree().bin_count() <= expr@.len()
                },
                Err(ParseError::Syntax) => parse_expression(expr@) is None,
                Err(ParseError::TrailingInput) => match parse_expression(expr@) {
                    Some((t, c)) => c < expr@.len(),
                    None => false,
                },
            },
    {
        proof {
            lemma_parse_expression_consumed(expr@);
        }
        match parse_expression_str(expr) {
            None => Err(ParseError::Syntax),
            Some((root, rest)) => if rest.unicode_len() == 0 {
                Ok(ArithmeticCircuit { root })
            } else {
                Err(ParseError::TrailingInput)
            },
        }
    }

    /// Evaluates the tree against the given `(name, value)` pairs, the last
    /// pair winning on duplicate names. The first call computes and
    /// memoizes; a node that already holds a memoized value keeps it, so a
    /// later call returns the earlier result whatever the new binding says.
    pub fn evaluate(&mut self, inputs: &Vec<(String, i32)>) -> (r: Result<i32, EvalError>)
        ensures
            r == memo_eval(old(self)@, binding_map(inputs@)),
            final(self)@ == after_eval(old(self)@, binding_map(inputs@)),
    {
        self.root.evaluate(inputs)
    }

    /// Renders the tree with a counter starting at zero and embeds it in
    /// the fixed contract template.
    pub fn to_solidity(&self) -> (r: String)
        requires
            2 * self@.tree().bin_count() <= usize::MAX,
        ensures
            r@ == solidity_text(render_tree(self@.tree(), 0)),
    {
        let mut counter: usize = 0;
        let body = self.root.to_solidity(&mut counter);
        let mut out = String::from_str(
            "\npragma solidity ^0.8.0;\n\ncontract ArithmeticCircuit {\n    function verify(int256[] memory x, int256[] memory y) public pure returns (int256) {\n        return ",
        );
        out.append(body.as_str());
        out.append(";\n    }\n}\n");
        out
    }
}

} // verus!
