//! An arithmetic circuit library: parses a textual arithmetic expression
//! over named inputs and integer constants into an expression tree,
//! evaluates that tree against a binding of input names to 32-bit signed
//! integers (memoizing each node's value on first evaluation), and renders
//! the tree as the body of a fixed Solidity contract template.

pub mod ast;
pub mod circuit;
pub mod eval;
pub mod laws;
pub mod parser;
pub mod render;
