//! A recursive-descent parser for the expression grammar
//!
//! ```text
//! expression := term (("+"|"-") term)*      left-associative fold
//! term       := factor (("*"|"/") factor)*  left-associative fold
//! factor     := integer-literal | identifier | "(" expression ")"
//! ```
//!
//! Integer literals are one or more decimal digits and must fit in a 32-bit
//! signed integer; identifiers are one or more ASCII alphabetic characters.
//! The grammar consumes no whitespace. The specification functions return
//! the parsed tree together with the number of characters consumed; `None`
//! is a parse failure at that position.

use vstd::prelude::*;

use crate::ast::{ExprTree, Gate, Node};
use vstd::string::{StrSliceExecFns, StringExecFns};

verus! {

/// An ASCII decimal digit.
pub open spec fn is_digit_char(c: char) -> bool {
    48 <= c as u32 && c as u32 <= 57
}

/// An ASCII alphabetic character.
pub open spec fn is_alpha_char(c: char) -> bool {
    (65 <= c as u32 && c as u32 <= 90) || (97 <= c as u32 && c as u32 <= 122)
}

/// The numeric value of a decimal digit character.
pub open spec fn digit_val(c: char) -> nat
    recommends
        is_digit_char(c),
{
    (c as int - 48) as nat
}

/// How many leading characters of `s` are decimal digits.
pub open spec fn digit_run(s: Seq<char>) -> nat
    decreases s.len(),
{
    if s.len() > 0 && is_digit_char(s[0]) {
        1 + digit_run(s.skip(1))
    } else {
        0
    }
}

/// How many leading characters of `s` are alphabetic.
pub open spec fn alpha_run(s: Seq<char>) -> nat
    decreases s.len(),
{
    if s.len() > 0 && is_alpha_char(s[0]) {
        1 + alpha_run(s.skip(1))
    } else {
        0
    }
}

/// The value of a sequence of decimal digits, most significant first.
pub open spec fn digits_val(s: Seq<char>) -> nat
    decreases s.len(),
{
    if s.len() == 0 {
        0
    } else {
        digits_val(s.drop_last()) * 10 + digit_val(s.last())
    }
}

/// Parses a factor: a decimal integer literal (a parse failure when its
/// value overflows a 32-bit signed integer), an identifier, or a
/// parenthesized expression.
pub open spec fn parse_factor(s: Seq<char>) -> Option<(ExprTree, int)>
    decreases s.len(), 0int,
{
    if s.len() == 0 {
        None
    } else if is_digit_char(s[0]) {
        let k = digit_run(s) as int;
        if digits_val(s.take(k)) <= i32::MAX as nat {
            Some((ExprTree::Const(digits_val(s.take(k)) as i32), k))
        } else {
            None
        }
    } else if is_alpha_char(s[0]) {
        let k = alpha_run(s) as int;
        Some((ExprTree::Input(s.take(k)), k))
    } else if s[0] == '(' {
        match parse_expression(s.skip(1)) {
            Some((t, c)) => if 1 + c < s.len() && s[1 + c] == ')' {
                Some((t, 2 + c))
            } else {
                None
            },
            None => None,
        }
    } else {
        None
    }
}

/// The left-associative fold of `*` and `/` onto an already parsed factor:
/// each further `("*"|"/") factor` wraps the accumulated tree as the left
/// operand of a new node.
pub open spec fn term_rest(acc: ExprTree, s: Seq<char>) -> (ExprTree, int)
    decreases s.len(), 0int,
{
    if s.len() > 0 && (s[0] == '*' || s[0] == '/') {
        match parse_factor(s.skip(1)) {
            Some((f, c)) => {
                let folded = if s[0] == '*' {
                    ExprTree::Mul(Box::new(acc), Box::new(f))
                } else {
                    ExprTree::Div(Box::new(acc), Box::new(f))
                };
                if 0 <= c && 1 + c <= s.len() {
                    let (t, c2) = term_rest(folded, s.skip(1 + c));
                    (t, 1 + c + c2)
                } else {
                    // a successful factor always consumes between one
                    // character and the whole input, so this is unreachable
                    (acc, 0)
                }
            },
            None => (acc, 0),
        }
    } else {
        (acc, 0)
    }
}

/// Parses a term: a factor followed by the `*`/`/` fold.
pub open spec fn parse_term(s: Seq<char>) -> Option<(ExprTree, int)>
    decreases s.len(), 1int,
{
    match parse_factor(s) {
        Some((f, c)) => if 0 < c <= s.len() {
            let (t, c2) = term_rest(f, s.skip(c));
            Some((t, c + c2))
        } else {
            // unreachable, as in term_rest
            Some((f, c))
        },
        None => None,
    }
}

/// The left-associative fold of `+` and `-` onto an already parsed term.
pub open spec fn expr_rest(acc: ExprTree, s: Seq<char>) -> (ExprTree, int)
    decreases s.len(), 0int,
{
    if s.len() > 0 && (s[0] == '+' || s[0] == '-') {
        match parse_term(s.skip(1)) {
            Some((t, c)) => {
                let folded = if s[0] == '+' {
                    ExprTree::Add(Box::new(acc), Box::new(t))
                } else {
                    ExprTree::Sub(Box::new(acc), Box::new(t))
                };
                if 0 <= c && 1 + c <= s.len() {
                    let (t2, c2) = expr_rest(folded, s.skip(1 + c));
                    (t2, 1 + c + c2)
                } else {
                    // unreachable, as in term_rest
                    (acc, 0)
                }
            },
            None => (acc, 0),
        }
    } else {
        (acc, 0)
    }
}

/// Parses an expression: a term followed by the `+`/`-` fold.
pub open spec fn parse_expression(s: Seq<char>) -> Option<(ExprTree, int)>
    decreases s.len(), 2int,
{
    match parse_term(s) {
        Some((t, c)) => if 0 < c <= s.len() {
            let (t2, c2) = expr_rest(t, s.skip(c));
            Some((t2, c + c2))
        } else {
            // unreachable, as in term_rest
            Some((t, c))
        },
        None => None,
    }
}

/// A successful factor consumes between one character and the whole input,
/// and builds at most one binary node per character consumed.
pub proof fn lemma_parse_factor_consumed(s: Seq<char>)
    ensures
        parse_factor(s) matches Some((t, c)) ==> 1 <= c <= s.len() && t.bin_count() <= c,
    decreases s.len(), 0int,
{
    if s.len() > 0 && !is_digit_char(s[0]) && !is_alpha_char(s[0]) && s[0] == '(' {
        lemma_parse_expression_consumed(s.skip(1));
    }
    lemma_digit_run_le_len(s);
    lemma_alpha_run_le_len(s);
}

/// The `*`/`/` fold consumes at most the whole input and adds at most one
/// binary node per character consumed.
pub proof fn lemma_term_rest_consumed(acc: ExprTree, s: Seq<char>)
    ensures
        0 <= term_rest(acc, s).1 <= s.len(),
        term_rest(acc, s).0.bin_count() <= acc.bin_count() + term_rest(acc, s).1,
    decreases s.len(), 0int,
{
    if s.len() > 0 && (s[0] == '*' || s[0] == '/') {
        lemma_parse_factor_consumed(s.skip(1));
        match parse_factor(s.skip(1)) {
            Some((f, c)) => {
                let folded = if s[0] == '*' {
                    ExprTree::Mul(Box::new(acc), Box::new(f))
                } else {
                    ExprTree::Div(Box::new(acc), Box::new(f))
                };
                lemma_term_rest_consumed(folded, s.skip(1 + c));
            },
            None => {},
        }
    }
}

/// A successful term consumes between one character and the whole input,
/// and builds at most one binary node per character consumed.
pub proof fn lemma_parse_term_consumed(s: Seq<char>)
    ensures
        parse_term(s) matches Some((t, c)) ==> 1 <= c <= s.len() && t.bin_count() <= c,
    decreases s.len(), 1int,
{
    lemma_parse_factor_consumed(s);
    match parse_factor(s) {
        Some((f, c)) => {
            lemma_term_rest_consumed(f, s.skip(c));
        },
        None => {},
    }
}

/// The `+`/`-` fold consumes at most the whole input and adds at most one
/// binary node per character consumed.
pub proof fn lemma_expr_rest_consumed(acc: ExprTree, s: Seq<char>)
    ensures
        0 <= expr_rest(acc, s).1 <= s.len(),
        expr_rest(acc, s).0.bin_count() <= acc.bin_count() + expr_rest(acc, s).1,
    decreases s.len(), 0int,
{
    if s.len() > 0 && (s[0] == '+' || s[0] == '-') {
        lemma_parse_term_consumed(s.skip(1));
        match parse_term(s.skip(1)) {
            Some((t, c)) => {
                let folded = if s[0] == '+' {
                    ExprTree::Add(Box::new(acc), Box::new(t))
                } else {
                    ExprTree::Sub(Box::new(acc), Box::new(t))
                };
                lemma_expr_rest_consumed(folded, s.skip(1 + c));
            },
            None => {},
        }
    }
}

/// A successful expression consumes between one character and the whole
/// input, and builds at most one binary node per character consumed.
pub proof fn lemma_parse_expression_consumed(s: Seq<char>)
    ensures
        parse_expression(s) matches Some((t, c)) ==> 1 <= c <= s.len() && t.bin_count() <= c,
    decreases s.len(), 2int,
{
    lemma_parse_term_consumed(s);
    match parse_term(s) {
        Some((t, c)) => {
            lemma_expr_rest_consumed(t, s.skip(c));
        },
        None => {},
    }
}

/// When the first `k` characters are digits and the character after them
/// (if any) is not, the digit run is exactly `k`.
proof fn lemma_digit_run_at(s: Seq<char>, k: int)
    requires
        0 <= k <= s.len(),
        forall|j: int| 0 <= j < k ==> is_digit_char(s[j]),
        k < s.len() ==> !is_digit_char(s[k]),
    ensures
        digit_run(s) == k,
    decreases s.len(),
{
    if k > 0 {
        assert(forall|j: int| 0 <= j < k - 1 ==> is_digit_char(s.skip(1)[j]) == is_digit_char(
            s[j + 1],
        ));
        lemma_digit_run_at(s.skip(1), k - 1);
    }
}

/// The `alpha_run` counterpart of `lemma_digit_run_at`.
proof fn lemma_alpha_run_at(s: Seq<char>, k: int)
    requires
        0 <= k <= s.len(),
        forall|j: int| 0 <= j < k ==> is_alpha_char(s[j]),
        k < s.len() ==> !is_alpha_char(s[k]),
    ensures
        alpha_run(s) == k,
    decreases s.len(),
{
    if k > 0 {
        assert(forall|j: int| 0 <= j < k - 1 ==> is_alpha_char(s.skip(1)[j]) == is_alpha_char(
            s[j + 1],
        ));
        lemma_alpha_run_at(s.skip(1), k - 1);
    }
}

fn char_is_digit(c: char) -> (b: bool)
    ensures
        b == is_digit_char(c),
{
    let u = c as u32;
    48 <= u && u <= 57
}

fn char_is_alpha(c: char) -> (b: bool)
    ensures
        b == is_alpha_char(c),
{
    let u = c as u32;
    (65 <= u && u <= 90) || (97 <= u && u <= 122)
}

/// Scans the leading digit run of `s`, returning its length, the value of
/// its digits when that fits a 32-bit signed integer, and whether it
/// overflowed one.
fn scan_digits(s: &str) -> (r: (usize, u64, bool))
    ensures
        r.0 as nat == digit_run(s@),
        !r.2 ==> r.1 as nat == digits_val(s@.take(r.0 as int)) && r.1 <= 2147483647,
        r.2 ==> digits_val(s@.take(r.0 as int)) > 2147483647,
{
    let n_chars = s.unicode_len();
    let mut k: usize = 0;
    let mut val: u64 = 0;
    let mut over: bool = false;
    loop
        invariant
            n_chars as nat == s@.len(),
            k <= n_chars,
            forall|j: int| 0 <= j < k ==> is_digit_char(s@[j]),
            !over ==> val as nat == digits_val(s@.take(k as int)) && val <= 2147483647,
            over ==> digits_val(s@.take(k as int)) > 2147483647,
        decreases n_chars - k,
    {
        if k == n_chars {
            proof {
                lemma_digit_run_at(s@, k as int);
            }
            return (k, val, over);
        }
        let c = s.get_char(k);
        if !char_is_digit(c) {
            proof {
                lemma_digit_run_at(s@, k as int);
            }
            return (k, val, over);
        }
        proof {
            assert(s@.take(k + 1 as int).drop_last() =~= s@.take(k as int));
            assert(s@.take(k + 1 as int).last() == s@[k as int]);
        }
        let d = (c as u32 - 48) as u64;
        if !over {
            let nv = val * 10 + d;
            if nv > 2147483647 {
                over = true;
            } else {
                val = nv;
            }
        }
        k = k + 1;
    }
}

/// Scans the leading run of alphabetic characters of `s`.
fn scan_alpha(s: &str) -> (k: usize)
    ensures
        k as nat == alpha_run(s@),
{
    let n_chars = s.unicode_len();
    let mut k: usize = 0;
    loop
        invariant
            n_chars as nat == s@.len(),
            k <= n_chars,
            forall|j: int| 0 <= j < k ==> is_alpha_char(s@[j]),
        decreases n_chars - k,
    {
        if k == n_chars {
            proof {
                lemma_alpha_run_at(s@, k as int);
            }
            return k;
        }
        let c = s.get_char(k);
        if !char_is_alpha(c) {
            proof {
                lemma_alpha_run_at(s@, k as int);
            }
            return k;
        }
        k = k + 1;
    }
}

proof fn lemma_digit_run_le_len(s: Seq<char>)
    ensures
        digit_run(s) <= s.len(),
    decreases s.len(),
{
    if s.len() > 0 && is_digit_char(s[0]) {
        lemma_digit_run_le_len(s.skip(1));
    }
}

/// Parses a leading factor of `s`, returning the built node and the
/// unconsumed remainder of `s`.
pub(crate) fn parse_factor_str<'a>(s: &'a str) -> (r: Option<(Node, &'a str)>)
    ensures
        match r {
            Some((n, rest)) => {
                let consumed = s@.len() - rest@.len();
                &&& n.uncached()
                &&& rest@.len() <= s@.len()
                &&& rest@ == s@.skip(consumed)
                &&& parse_factor(s@) == Some((n.tree(), consumed))
            },
            None => parse_factor(s@) is None,
        },
    decreases s@.len(), 0int,
{
    let n_chars = s.unicode_len();
    if n_chars == 0 {
        return None;
    }
    let c0 = s.get_char(0);
    if char_is_digit(c0) {
        let (k, val, over) = scan_digits(s);
        proof {
            lemma_digit_run_le_len(s@);
        }
        if over {
            return None;
        }
        let node = Node::new(Gate::Const(val as i32));
        let rest = s.substring_char(k, n_chars);
        proof {
            assert(rest@ =~= s@.skip(k as int));
        }
        Some((node, rest))
    } else if char_is_alpha(c0) {
        let k = scan_alpha(s);
        proof {
            lemma_alpha_run_le_len(s@);
        }
        let name_str = s.substring_char(0, k);
        let name = String::from_str(name_str);
        let node = Node::new(Gate::Input(name));
        let rest = s.substring_char(k, n_chars);
        proof {
            assert(rest@ =~= s@.skip(k as int));
            assert(name@ =~= s@.take(k as int));
        }
        Some((node, rest))
    } else if c0 == '(' {
        let inner = s.substring_char(1, n_chars);
        proof {
            assert(inner@ =~= s@.skip(1));
        }
        match parse_expression_str(inner) {
            Some((node, rest1)) => {
                let ghost c = inner@.len() - rest1@.len();
                proof {
                    assert(rest1@ =~= s@.skip(1 + c));
                }
                let m = rest1.unicode_len();
                if m == 0 {
                    return None;
                }
                let c1 = rest1.get_char(0);
                if c1 == ')' {
                    let rest = rest1.substring_char(1, m);
                    proof {
                        assert(rest@ =~= s@.skip(2 + c));
                    }
                    Some((node, rest))
                } else {
                    None
                }
            },
            None => None,
        }
    } else {
        None
    }
}

/// Parses a leading term of `s`: a factor, then the left-associative
/// `*`/`/` fold.
pub(crate) fn parse_term_str<'a>(s: &'a str) -> (r: Option<(Node, &'a str)>)
    ensures
        match r {
            Some((n, rest)) => {
                let consumed = s@.len() - rest@.len();
                &&& n.uncached()
                &&& rest@.len() <= s@.len()
                &&& rest@ == s@.skip(consumed)
                &&& parse_term(s@) == Some((n.tree(), consumed))
            },
            None => parse_term(s@) is None,
        },
    decreases s@.len(), 1int,
{
    let first = parse_factor_str(s);
    match first {
        None => None,
        Some((init, rest0)) => {
            proof {
                lemma_parse_factor_consumed(s@);
            }
            let ghost r0 = rest0@;
            let ghost c0 = s@.len() - r0.len();
            let ghost g = term_rest(init.tree(), r0);
            let mut acc = init;
            let mut rest = rest0;
            loop
                invariant
                    acc.uncached(),
                    rest@.len() <= r0.len() <= s@.len(),
                    rest@ == s@.skip(s@.len() - rest@.len()),
                    r0 == s@.skip(c0),
                    c0 == s@.len() - r0.len(),
                    1 <= c0 <= s@.len(),
                    parse_factor(s@) == Some((init.tree(), c0)),
                    g == term_rest(init.tree(), r0),
                    term_rest(acc.tree(), rest@).0 == g.0,
                    (r0.len() - rest@.len()) + term_rest(acc.tree(), rest@).1 == g.1,
                decreases rest@.len(),
            {
                let m = rest.unicode_len();
                if m == 0 {
                    return Some((acc, rest));
                }
                let op = rest.get_char(0);
                let star = op == '*';
                if !star && !(op == '/') {
                    return Some((acc, rest));
                }
                let after_op = rest.substring_char(1, m);
                proof {
                    assert(after_op@ =~= rest@.skip(1));
                }
                match parse_factor_str(after_op) {
                    None => {
                        return Some((acc, rest));
                    },
                    Some((f, rest2)) => {
                        proof {
                            lemma_parse_factor_consumed(after_op@);
                        }
                        let ghost cf = after_op@.len() - rest2@.len();
                        proof {
                            assert(rest2@ =~= rest@.skip(1 + cf));
                            assert(rest2@ =~= s@.skip(s@.len() - rest2@.len()));
                        }
                        let folded = if star {
                            Node::new(Gate::Mul(Box::new(acc), Box::new(f)))
                        } else {
                            Node::new(Gate::Div(Box::new(acc), Box::new(f)))
                        };
                        acc = folded;
                        rest = rest2;
                    },
                }
            }
        },
    }
}

/// Parses a leading expression of `s`: a term, then the left-associative
/// `+`/`-` fold.
pub(crate) fn parse_expression_str<'a>(s: &'a str) -> (r: Option<(Node, &'a str)>)
    ensures
        match r {
            Some((n, rest)) => {
                let consumed = s@.len() - rest@.len();
                &&& n.uncached()
                &&& rest@.len() <= s@.len()
                &&& rest@ == s@.skip(consumed)
                &&& parse_expression(s@) == Some((n.tree(), consumed))
            },
            None => parse_expression(s@) is None,
        },
    decreases s@.len(), 2int,
{
    let first = parse_term_str(s);
    match first {
        None => None,
        Some((init, rest0)) => {
            proof {
                lemma_parse_term_consumed(s@);
            }
            let ghost r0 = rest0@;
            let ghost c0 = s@.len() - r0.len();
            let ghost g = expr_rest(init.tree(), r0);
            let mut acc = init;
            let mut rest = rest0;
            loop
                invariant
                    acc.uncached(),
                    rest@.len() <= r0.len() <= s@.len(),
                    rest@ == s@.skip(s@.len() - rest@.len()),
                    r0 == s@.skip(c0),
                    c0 == s@.len() - r0.len(),
                    1 <= c0 <= s@.len(),
                    parse_term(s@) == Some((init.tree(), c0)),
                    g == expr_rest(init.tree(), r0),
                    expr_rest(acc.tree(), rest@).0 == g.0,
                    (r0.len() - rest@.len()) + expr_rest(acc.tree(), rest@).1 == g.1,
                decreases rest@.len(),
            {
                let m = rest.unicode_len();
                if m == 0 {
                    return Some((acc, rest));
                }
                let op = rest.get_char(0);
                let plus = op == '+';
                if !plus && !(op == '-') {
                    return Some((acc, rest));
                }
                let after_op = rest.substring_char(1, m);
                proof {
                    assert(after_op@ =~= rest@.skip(1));
                }
                match parse_term_str(after_op) {
                    None => {
                        return Some((acc, rest));
                    },
                    Some((t, rest2)) => {
                        proof {
                            lemma_parse_term_consumed(after_op@);
                        }
                        let ghost ct = after_op@.len() - rest2@.len();
                        proof {
                            assert(rest2@ =~= rest@.skip(1 + ct));
                            assert(rest2@ =~= s@.skip(s@.len() - rest2@.len()));
                        }
                        let folded = if plus {
                            Node::new(Gate::Add(Box::new(acc), Box::new(t)))
                        } else {
                            Node::new(Gate::Sub(Box::new(acc), Box::new(t)))
                        };
                        acc = folded;
                        rest = rest2;
                    },
                }
            }
        },
    }
}

proof fn lemma_alpha_run_le_len(s: Seq<char>)
    ensures
        alpha_run(s) <= s.len(),
    decreases s.len(),
{
    if s.len() > 0 && is_alpha_char(s[0]) {
        lemma_alpha_run_le_len(s.skip(1));
    }
}

} // verus!
