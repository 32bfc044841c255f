//! Rendering an expression tree as an infix arithmetic expression string,
//! with each input reference indexed by a running counter that binary nodes
//! advance around each child render.

use vstd::prelude::*;

use crate::ast::{ExprTree, Gate, Node};

verus! {

/// The decimal digit character for a value below ten.
pub open spec fn digit_char(d: nat) -> char
    recommends
        d < 10,
{
    if d == 0 {
        '0'
    } else if d == 1 {
        '1'
    } else if d == 2 {
        '2'
    } else if d == 3 {
        '3'
    } else if d == 4 {
        '4'
    } else if d == 5 {
        '5'
    } else if d == 6 {
        '6'
    } else if d == 7 {
        '7'
    } else if d == 8 {
        '8'
    } else {
        '9'
    }
}

/// The decimal digits of a natural number, most significant first, with no
/// leading zeros (a single `'0'` for zero).
pub open spec fn dec_digits(n: nat) -> Seq<char>
    decreases n,
{
    if n < 10 {
        seq![digit_char(n)]
    } else {
        dec_digits(n / 10) + seq![digit_char(n % 10)]
    }
}

/// The decimal rendering of a 32-bit signed integer: a minus sign before
/// the digits of its magnitude when negative.
pub open spec fn dec_i32(v: i32) -> Seq<char> {
    if v < 0 {
        seq!['-'] + dec_digits((-(v as int)) as nat)
    } else {
        dec_digits(v as nat)
    }
}

/// The infix rendering of a tree with the counter starting at `c`: an input
/// emits `name[c]` without advancing the counter; a constant emits its
/// decimal literal; a binary node renders its left child, advances the
/// counter by one, renders its right child, advances the counter again, and
/// joins the fragments with the operator padded by single spaces. The
/// counter advances around each child render regardless of how many input
/// leaves that child holds, so the index written into an input bears no
/// fixed relation to the input's position.
pub open spec fn render_tree(t: ExprTree, c: nat) -> Seq<char>
    decreases t,
{
    match t {
        ExprTree::Input(name) => name + "["@ + dec_digits(c) + "]"@,
        ExprTree::Const(v) => dec_i32(v),
        ExprTree::Add(l, r) => render_tree(*l, c) + " + "@ + render_tree(
            *r,
            counter_after(*l, c) + 1,
        ),
        ExprTree::Sub(l, r) => render_tree(*l, c) + " - "@ + render_tree(
            *r,
            counter_after(*l, c) + 1,
        ),
        ExprTree::Mul(l, r) => render_tree(*l, c) + " * "@ + render_tree(
            *r,
            counter_after(*l, c) + 1,
        ),
        ExprTree::Div(l, r) => render_tree(*l, c) + " / "@ + render_tree(
            *r,
            counter_after(*l, c) + 1,
        ),
    }
}

/// Where the counter stands after rendering `t` with the counter starting
/// at `c`: leaves leave it unchanged, each binary node advances it once
/// after each of its two child renders.
pub open spec fn counter_after(t: ExprTree, c: nat) -> nat
    decreases t,
{
    match t {
        ExprTree::Input(_) => c,
        ExprTree::Const(_) => c,
        ExprTree::Add(l, r) => counter_after(*r, counter_after(*l, c) + 1) + 1,
        ExprTree::Sub(l, r) => counter_after(*r, counter_after(*l, c) + 1) + 1,
        ExprTree::Mul(l, r) => counter_after(*r, counter_after(*l, c) + 1) + 1,
        ExprTree::Div(l, r) => counter_after(*r, counter_after(*l, c) + 1) + 1,
    }
}

/// Rendering a tree advances the counter by at least nothing and at most
/// twice the tree's number of binary nodes.
pub proof fn lemma_counter_after_bounds(t: ExprTree, c: nat)
    ensures
        c <= counter_after(t, c),
        counter_after(t, c) <= c + 2 * t.bin_count(),
    decreases t,
{
    match t {
        ExprTree::Input(_) => {},
        ExprTree::Const(_) => {},
        ExprTree::Add(l, r) => {
            lemma_counter_after_bounds(*l, c);
            lemma_counter_after_bounds(*r, counter_after(*l, c) + 1);
        },
        ExprTree::Sub(l, r) => {
            lemma_counter_after_bounds(*l, c);
            lemma_counter_after_bounds(*r, counter_after(*l, c) + 1);
        },
        ExprTree::Mul(l, r) => {
            lemma_counter_after_bounds(*l, c);
            lemma_counter_after_bounds(*r, counter_after(*l, c) + 1);
        },
        ExprTree::Div(l, r) => {
            lemma_counter_after_bounds(*l, c);
            lemma_counter_after_bounds(*r, counter_after(*l, c) + 1);
        },
    }
}

/// The one-character string for a decimal digit.
fn digit_str(d: u64) -> (r: &'static str)
    requires
        d < 10,
    ensures
        r@ == seq![digit_char(d as nat)],
{
    proof {
        reveal_strlit("0");
        reveal_strlit("1");
        reveal_strlit("2");
        reveal_strlit("3");
        reveal_strlit("4");
        reveal_strlit("5");
        reveal_strlit("6");
        reveal_strlit("7");
        reveal_strlit("8");
        reveal_strlit("9");
    }
    let r = match d {
        0 => "0",
        1 => "1",
        2 => "2",
        3 => "3",
        4 => "4",
        5 => "5",
        6 => "6",
        7 => "7",
        8 => "8",
        _ => "9",
    };
    proof {
        assert(r@ =~= seq![digit_char(d as nat)]);
    }
    r
}

/// Appends the decimal digits of `n` to `s`.
fn push_dec_u64(s: &mut String, n: u64)
    ensures
        final(s)@ == old(s)@ + dec_digits(n as nat),
    decreases n,
{
    if n < 10 {
        s.append(digit_str(n));
    } else {
        push_dec_u64(s, n / 10);
        s.append(digit_str(n % 10));
        proof {
            assert(s@ =~= old(s)@ + dec_digits(n as nat));
        }
    }
}

/// Appends the decimal rendering of `v` to `s`, minus sign included when
/// `v` is negative.
fn push_dec_i32(s: &mut String, v: i32)
    ensures
        final(s)@ == old(s)@ + dec_i32(v),
{
    proof {
        reveal_strlit("-");
    }
    if v < 0 {
        s.append("-");
        let m: u64 = (-(v as i64)) as u64;
        push_dec_u64(s, m);
        proof {
            assert(s@ =~= old(s)@ + dec_i32(v));
        }
    } else {
        push_dec_u64(s, v as u64);
    }
}

impl Node {
    /// Renders this node's tree as an infix expression, reading and
    /// advancing the caller's counter as `render_tree` and `counter_after`
    /// describe. The counter must have room for its two advances per binary
    /// node.
    pub fn to_solidity(&self, counter: &mut usize) -> (r: String)
        requires
            *old(counter) + 2 * self.tree().bin_count() <= usize::MAX,
        ensures
            r@ == render_tree(self.tree(), *old(counter) as nat),
            *final(counter) as nat == counter_after(self.tree(), *old(counter) as nat),
        decreases self,
    {
        match &self.gate {
            Gate::Input(name) => {
                let mut s = name.clone();
                s.append("[");
                push_dec_u64(&mut s, *counter as u64);
                s.append("]");
                proof {
                    assert(s@ =~= render_tree(self.tree(), *old(counter) as nat));
                }
                s
            },
            Gate::Const(v) => {
                let mut s = String::new();
                push_dec_i32(&mut s, *v);
                proof {
                    assert(s@ =~= render_tree(self.tree(), *old(counter) as nat));
                }
                s
            },
            Gate::Add(l, r) => {
                proof {
                    lemma_counter_after_bounds(l.tree(), *counter as nat);
                    lemma_counter_after_bounds(
                        r.tree(),
                        counter_after(l.tree(), *counter as nat) + 1,
                    );
                }
                let left_sol = l.to_solidity(counter);
                *counter += 1;
                let right_sol = r.to_solidity(counter);
                *counter += 1;
                let joined = left_sol.concat(" + ").concat(right_sol.as_str());
                proof {
                    assert(joined@ =~= render_tree(self.tree(), *old(counter) as nat));
                }
                joined
            },
            Gate::Sub(l, r) => {
                proof {
                    lemma_counter_after_bounds(l.tree(), *counter as nat);
                    lemma_counter_after_bounds(
                        r.tree(),
                        counter_after(l.tree(), *counter as nat) + 1,
                    );
                }
                let left_sol = l.to_solidity(counter);
                *counter += 1;
                let right_sol = r.to_solidity(counter);
                *counter += 1;
                let joined = left_sol.concat(" - ").concat(right_sol.as_str());
                proof {
                    assert(joined@ =~= render_tree(self.tree(), *old(counter) as nat));
                }
                joined
            },
            Gate::Mul(l, r) => {
                proof {
                    lemma_counter_after_bounds(l.tree(), *counter as nat);
                    lemma_counter_after_bounds(
                        r.tree(),
                        counter_after(l.tree(), *counter as nat) + 1,
                    );
                }
                let left_sol = l.to_solidity(counter);
                *counter += 1;
                let right_sol = r.to_solidity(counter);
                *counter += 1;
                let joined = left_sol.concat(" * ").concat(right_sol.as_str());
                proof {
                    assert(joined@ =~= render_tree(self.tree(), *old(counter) as nat));
                }
                joined
            },
            Gate::Div(l, r) => {
                proof {
                    lemma_counter_after_bounds(l.tree(), *counter as nat);
                    lemma_counter_after_bounds(
                        r.tree(),
                        counter_after(l.tree(), *counter as nat) + 1,
                    );
                }
                let left_sol = l.to_solidity(counter);
                *counter += 1;
                let right_sol = r.to_solidity(counter);
                *counter += 1;
                let joined = left_sol.concat(" / ").concat(right_sol.as_str());
                proof {
                    assert(joined@ =~= render_tree(self.tree(), *old(counter) as nat));
                }
                joined
            },
        }
    }
}

} // verus!
