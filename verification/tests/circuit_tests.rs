use arith_circuit::ast::{Gate, Node};
use arith_circuit::circuit::{ArithmeticCircuit, ParseError};
use arith_circuit::eval::EvalError;

fn bindings(pairs: &[(&str, i32)]) -> Vec<(String, i32)> {
    pairs.iter().map(|(k, v)| (k.to_string(), *v)).collect()
}

fn circuit(expr: &str) -> ArithmeticCircuit {
    match ArithmeticCircuit::from_expression(expr) {
        Ok(c) => c,
        Err(_) => panic!("expression should parse"),
    }
}

fn eval(expr: &str, pairs: &[(&str, i32)]) -> i32 {
    let mut c = circuit(expr);
    match c.evaluate(&bindings(pairs)) {
        Ok(v) => v,
        Err(_) => panic!("expression should evaluate"),
    }
}

const TEMPLATE_HEAD: &str = "\npragma solidity ^0.8.0;\n\ncontract ArithmeticCircuit {\n    function verify(int256[] memory x, int256[] memory y) public pure returns (int256) {\n        return ";
const TEMPLATE_TAIL: &str = ";\n    }\n}\n";

#[test]
fn evaluates_parsed_expression() {
    assert_eq!(eval("(x+y)*y", &[("x", 2), ("y", 3)]), 15);
}

#[test]
fn reevaluation_returns_first_result() {
    let mut c = circuit("x+1");
    assert_eq!(c.evaluate(&bindings(&[("x", 2)])), Ok(3));
    assert_eq!(c.evaluate(&bindings(&[("x", 100)])), Ok(3));
}

#[test]
fn precedence_without_parens() {
    assert_eq!(eval("2+3*4", &[]), 14);
}

#[test]
fn parens_override_precedence() {
    assert_eq!(eval("(2+3)*4", &[]), 20);
}

#[test]
fn subtraction_is_left_associative() {
    assert_eq!(eval("10-3-2", &[]), 5);
}

#[test]
fn division_is_left_associative() {
    assert_eq!(eval("8/4/2", &[]), 1);
}

#[test]
fn division_truncates_toward_zero() {
    assert_eq!(eval("7/2", &[]), 3);
    assert_eq!(eval("(0-7)/2", &[]), -3);
    assert_eq!(eval("a/b", &[("a", -9), ("b", 4)]), -2);
}

#[test]
fn division_by_zero_fails() {
    let mut c = circuit("1/0");
    assert_eq!(c.evaluate(&bindings(&[])), Err(EvalError::DivisionByZero));
}

#[test]
fn solidity_template_is_reproduced_exactly() {
    let c = circuit("x+y");
    let expected = format!("{}x[0] + y[1]{}", TEMPLATE_HEAD, TEMPLATE_TAIL);
    assert_eq!(c.to_solidity(), expected);
}

#[test]
fn emission_counter_advances_around_child_renders() {
    // The counter advances once after each child render of a binary node,
    // whatever that child held, so the indices do not follow input order.
    let c = circuit("x*(y+z)");
    let expected = format!("{}x[0] * y[1] + z[2]{}", TEMPLATE_HEAD, TEMPLATE_TAIL);
    assert_eq!(c.to_solidity(), expected);
}

#[test]
fn malformed_inputs_fail_parsing() {
    assert_eq!(
        ArithmeticCircuit::from_expression("x++y").err(),
        Some(ParseError::TrailingInput)
    );
    assert_eq!(
        ArithmeticCircuit::from_expression("(x+y").err(),
        Some(ParseError::Syntax)
    );
    assert_eq!(
        ArithmeticCircuit::from_expression("").err(),
        Some(ParseError::Syntax)
    );
}

#[test]
fn whitespace_is_not_consumed() {
    assert_eq!(
        ArithmeticCircuit::from_expression("2 + 3").err(),
        Some(ParseError::TrailingInput)
    );
}

#[test]
fn unbound_identifier_is_named_in_the_error() {
    let mut c = circuit("x+z");
    assert_eq!(
        c.evaluate(&bindings(&[("x", 1)])),
        Err(EvalError::UnboundInput("z".to_string()))
    );
}

#[test]
fn literal_overflow_is_a_parse_failure() {
    assert_eq!(
        ArithmeticCircuit::from_expression("2147483648").err(),
        Some(ParseError::Syntax)
    );
    assert_eq!(eval("2147483647", &[]), 2147483647);
}

#[test]
fn arithmetic_wraps_around_on_overflow() {
    assert_eq!(eval("2147483647+1", &[]), -2147483648);
}

#[test]
fn duplicate_binding_last_write_wins() {
    assert_eq!(eval("x", &[("x", 1), ("x", 5)]), 5);
}

#[test]
fn node_memoizes_its_value() {
    let mut n = Node::new(Gate::Const(7));
    assert_eq!(n.value, None);
    assert_eq!(n.evaluate(&bindings(&[])), Ok(7));
    assert_eq!(n.value, Some(7));
}

#[test]
fn failing_evaluation_keeps_earlier_memoization() {
    let mut n = Node::new(Gate::Add(
        Box::new(Node::new(Gate::Input("x".to_string()))),
        Box::new(Node::new(Gate::Input("z".to_string()))),
    ));
    assert_eq!(
        n.evaluate(&bindings(&[("x", 2)])),
        Err(EvalError::UnboundInput("z".to_string()))
    );
    // the left child was fully evaluated before the failure and stays memoized
    match &n.gate {
        Gate::Add(l, r) => {
            assert_eq!(l.value, Some(2));
            assert_eq!(r.value, None);
        }
        _ => unreachable!(),
    }
    assert_eq!(n.value, None);
}

#[test]
fn clone_duplicates_the_whole_subtree() {
    let n = Node::new(Gate::Add(
        Box::new(Node::new(Gate::Const(2))),
        Box::new(Node::new(Gate::Const(3))),
    ));
    let mut copy = n.clone();
    assert_eq!(copy.evaluate(&bindings(&[])), Ok(5));
    assert_eq!(copy.value, Some(5));
    assert_eq!(n.value, None);
}

#[test]
fn negative_constant_renders_with_minus_sign() {
    let n = Node::new(Gate::Const(-5));
    let mut counter: usize = 0;
    assert_eq!(n.to_solidity(&mut counter), "-5");
    assert_eq!(counter, 0);
}

#[test]
fn smallest_quotient_wraps() {
    let mut n = Node::new(Gate::Div(
        Box::new(Node::new(Gate::Const(i32::MIN))),
        Box::new(Node::new(Gate::Const(-1))),
    ));
    assert_eq!(n.evaluate(&bindings(&[])), Ok(i32::MIN));
}

#[test]
fn circuit_new_wraps_a_root_node() {
    let root = Node::new(Gate::Const(42));
    let mut c = ArithmeticCircuit::new(root);
    assert_eq!(c.evaluate(&bindings(&[])), Ok(42));
}
