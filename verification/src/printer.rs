//! The canonical text rendering: a precedence-driven infix printer with a
//! compact and a spaced mode.

use vstd::prelude::*;

use crate::ast::binary::{Binary, BinaryOp};
use crate::ast::unary::{spec_affix, Unary, UnaryAffix, UnaryOp};
use crate::ast::{lemma_views_of_seq_index, lemma_views_of_seq_len, views_of_seq, Ast, Exp};
use vstd::string::StringExecFns;

verus! {

broadcast use {lemma_views_of_seq_len, lemma_views_of_seq_index};

/// Relies on `alloc::string::String::push`: appending one character to the
/// end of a string.
pub assume_specification[ String::push ](s: &mut String, ch: char)
    ensures
        final(s)@ == old(s)@.push(ch),
;

/// Binding strength of an operator: a smaller number binds tighter.
pub open spec fn spec_precedence(op: BinaryOp) -> u8 {
    match op {
        BinaryOp::Add => 4,
        BinaryOp::Mul => 3,
        BinaryOp::Pow => 2,
    }
}

/// Rendering character of an operator.
pub open spec fn op_char(op: BinaryOp) -> char {
    match op {
        BinaryOp::Add => '+',
        BinaryOp::Mul => '*',
        BinaryOp::Pow => '^',
    }
}

/// A child needs parentheses exactly when both precedences are known and its
/// own precedence number is greater (it binds looser) than the context's.
pub open spec fn spec_needs_paren(prec: Option<u8>, outer: Option<u8>) -> bool {
    match (prec, outer) {
        (Option::Some(p), Option::Some(o)) => p > o,
        _ => false,
    }
}

/// The decimal digit character for `d` (`0 <= d <= 9`).
pub open spec fn digit_char(d: nat) -> char {
    if d == 0 {
        '0'
    } else if d == 1 {
        '1'
    } else if d == 2 {
        '2'
    } else if d == 3 {
        '3'
    } else if d == 4 {
        '4'
    } else if d == 5 {
        '5'
    } else if d == 6 {
        '6'
    } else if d == 7 {
        '7'
    } else if d == 8 {
        '8'
    } else {
        '9'
    }
}

/// Decimal digits of a natural number, most significant first.
pub open spec fn dec_rep(n: nat) -> Seq<char>
    decreases n,
{
    if n < 10 {
        seq![digit_char(n)]
    } else {
        dec_rep(n / 10).push(digit_char(n % 10))
    }
}

/// Decimal rendering of an integer, with a leading minus sign when negative.
pub open spec fn int_str(n: int) -> Seq<char> {
    if n < 0 {
        seq!['-'] + dec_rep((-n) as nat)
    } else {
        dec_rep(n as nat)
    }
}

/// The separator between operands: the bare operator character, or the
/// character between single spaces in spaced mode.
pub open spec fn sep_str(op: BinaryOp, spaced: bool) -> Seq<char> {
    if spaced {
        seq![' ', op_char(op), ' ']
    } else {
        seq![op_char(op)]
    }
}

/// Canonical rendering of a tree in a context of precedence `outer`.
///
/// A number renders in decimal and a variable as its name.  An n-ary node
/// renders its operands joined by its operator, parenthesized when the
/// context binds tighter; empty nodes render as nothing and singleton nodes
/// as their operand alone.  A factorial renders as its operand followed by
/// `!`.
pub open spec fn fmt_exp(t: Exp, outer: Option<BinaryOp>, spaced: bool) -> Seq<char>
    decreases t, 1int,
{
    match t {
        Exp::Num(n) => int_str(n),
        Exp::Var(s) => s,
        Exp::Binary(op, ops) => {
            if ops.len() == 0 {
                Seq::empty()
            } else if ops.len() == 1 {
                fmt_exp(ops[0], Option::None, spaced)
            } else {
                let outer_prec = match outer {
                    Option::Some(o) => Option::Some(spec_precedence(o)),
                    Option::None => Option::None,
                };
                let body = fmt_exp(ops[0], Option::Some(op), spaced) + fmt_ops(
                    ops.drop_first(),
                    op,
                    spaced,
                );
                if spec_needs_paren(Option::Some(spec_precedence(op)), outer_prec) {
                    seq!['('] + body + seq![')']
                } else {
                    body
                }
            }
        }
        Exp::Unary(op, x) => {
            match spec_affix(op) {
                UnaryAffix::Postfix => fmt_exp(*x, Option::None, spaced).push('!'),
                UnaryAffix::Prefix => seq!['!'] + fmt_exp(*x, Option::None, spaced),
            }
        }
    }
}

/// Rendering of the second and later operands, each preceded by the
/// separator.
pub open spec fn fmt_ops(ops: Seq<Exp>, op: BinaryOp, spaced: bool) -> Seq<char>
    decreases ops, 0int,
{
    if ops.len() == 0 {
        Seq::empty()
    } else {
        sep_str(op, spaced) + fmt_exp(ops[0], Option::Some(op), spaced) + fmt_ops(
            ops.drop_first(),
            op,
            spaced,
        )
    }
}

impl BinaryOp {
    /// Binding strength; see [`spec_precedence`].
    pub fn precedence(self) -> (r: u8)
        ensures
            r == spec_precedence(self),
    {
        match self {
            BinaryOp::Add => 4,
            BinaryOp::Mul => 3,
            BinaryOp::Pow => 2,
        }
    }
}

impl UnaryOp {
    /// Binding strength of a unary operator: tighter than every binary one.
    pub fn precedence(self) -> (r: u8)
        ensures
            r == 1,
    {
        match self {
            UnaryOp::Fac => 1,
        }
    }
}

/// Whether a child of precedence `prec` needs parentheses in a context of
/// precedence `outer_precedence`; see [`spec_needs_paren`].
pub fn needs_paren(prec: Option<u8>, outer_precedence: Option<u8>) -> (r: bool)
    ensures
        r == spec_needs_paren(prec, outer_precedence),
{
    match (prec, outer_precedence) {
        (Option::Some(p), Option::Some(o)) => p > o,
        _ => false,
    }
}

/// Decimal digits of `m`, most significant first.
fn dec_string(m: u64) -> (s: String)
    ensures
        s@ == dec_rep(m as nat),
    decreases m,
{
    let d = m % 10;
    let ch: char = if d == 0 {
        '0'
    } else if d == 1 {
        '1'
    } else if d == 2 {
        '2'
    } else if d == 3 {
        '3'
    } else if d == 4 {
        '4'
    } else if d == 5 {
        '5'
    } else if d == 6 {
        '6'
    } else if d == 7 {
        '7'
    } else if d == 8 {
        '8'
    } else {
        '9'
    };
    proof {
        assert(ch == digit_char((m % 10) as nat));
    }
    if m < 10 {
        let mut s = String::new();
        s.push(ch);
        s
    } else {
        let mut s = dec_string(m / 10);
        s.push(ch);
        s
    }
}

/// Decimal rendering of `n`; see [`int_str`].
fn num_string(n: i64) -> (s: String)
    ensures
        s@ == int_str(n as int),
{
    if n >= 0 {
        dec_string(n as u64)
    } else {
        let m: u64 = (-(n as i128)) as u64;
        proof {
            assert(m as int == -(n as int));
        }
        let digits = dec_string(m);
        let mut s = String::new();
        s.push('-');
        s.append(digits.as_str());
        proof {
            assert(s@ =~= seq!['-'] + dec_rep(m as nat));
        }
        s
    }
}

impl Ast {
    /// Render the tree in a context of precedence `outer`; `spaced` selects
    /// the spaced mode (`a + b` instead of `a+b`).
    #[verifier::loop_isolation(false)]
    pub fn format(&self, outer: Option<BinaryOp>, spaced: bool) -> (s: String)
        ensures
            s@ == fmt_exp(self@, outer, spaced),
        decreases self, 1int,
    {
        match self {
            Ast::Num(n) => num_string(*n),
            Ast::Var(v) => {
                let s = v.as_str().to_owned();
                s
            }
            Ast::Binary(b) => {
                proof {
                    assert(decreases_to!(*self => self->Binary_0));
                    assert(self->Binary_0 == *b);
                }
                b.format(outer, spaced)
            }
            Ast::Unary(u) => {
                proof {
                    assert(decreases_to!(*self => self->Unary_0));
                    assert(self->Unary_0 == *u);
                }
                let mut s = u.operand.format(Option::None, spaced);
                match u.operator.affix() {
                    UnaryAffix::Postfix => {
                        s.push('!');
                        s
                    }
                    UnaryAffix::Prefix => {
                        let mut r = String::new();
                        r.push('!');
                        r.append(s.as_str());
                        proof {
                            assert(r@ =~= seq!['!'] + fmt_exp(u.operand@, Option::None, spaced));
                        }
                        r
                    }
                }
            }
        }
    }
}

impl Binary {
    /// Render an n-ary node; see [`fmt_exp`].
    #[verifier::rlimit(80)]
    #[verifier::loop_isolation(false)]
    pub fn format(&self, outer: Option<BinaryOp>, spaced: bool) -> (s: String)
        ensures
            s@ == fmt_exp(Exp::Binary(self.operator, views_of_seq(self.operands@)), outer, spaced),
        decreases self, 0int,
    {
        let ghost full = views_of_seq(self.operands@);
        if self.operands.len() == 0 {
            String::new()
        } else if self.operands.len() == 1 {
            proof {
                assert(decreases_to!(*self => self.operands));
                assert(decreases_to!(self.operands => self.operands@));
                assert(decreases_to!(self.operands@ => self.operands@[0]));
            }
            self.operands[0].format(Option::None, spaced)
        } else {
            let outer_prec: Option<u8> = match outer {
                Option::Some(o) => Option::Some(o.precedence()),
                Option::None => Option::None,
            };
            let paren = needs_paren(Option::Some(self.operator.precedence()), outer_prec);
            let mut body = {
                proof {
                    assert(decreases_to!(*self => self.operands));
                    assert(decreases_to!(self.operands => self.operands@));
                    assert(decreases_to!(self.operands@ => self.operands@[0]));
                }
                self.operands[0].format(Option::Some(self.operator), spaced)
            };
            let opch: char = match self.operator {
                BinaryOp::Add => '+',
                BinaryOp::Mul => '*',
                BinaryOp::Pow => '^',
            };
            let mut i: usize = 1;
            while i < self.operands.len()
                invariant
                    1 <= i <= self.operands.len(),
                    body@ =~= fmt_exp(full[0], Option::Some(self.operator), spaced) + joined(
                        full,
                        1,
                        i as int,
                        self.operator,
                        spaced,
                    ),
                decreases self.operands.len() - i,
            {
                proof {
                    assert(decreases_to!(*self => self.operands));
                    assert(decreases_to!(self.operands => self.operands@));
                    assert(decreases_to!(self.operands@ => self.operands@[i as int]));
                }
                if spaced {
                    body.push(' ');
                    body.push(opch);
                    body.push(' ');
                } else {
                    body.push(opch);
                }
                let part = self.operands[i].format(Option::Some(self.operator), spaced);
                body.append(part.as_str());
                proof {
                    lemma_joined_step(full, 1, i as int, self.operator, spaced);
                }
                i = i + 1;
            }
            proof {
                lemma_joined_is_fmt_ops(full, 1, self.operator, spaced);
                assert(body@ =~= fmt_exp(full[0], Option::Some(self.operator), spaced) + fmt_ops(
                    full.drop_first(),
                    self.operator,
                    spaced,
                ));
            }
            if paren {
                let mut s = String::new();
                s.push('(');
                s.append(body.as_str());
                s.push(')');
                proof {
                    assert(s@ =~= seq!['('] + body@ + seq![')']);
                }
                s
            } else {
                body
            }
        }
    }
}

/// The rendering of operands `from..to`, each preceded by the separator.
pub open spec fn joined(ops: Seq<Exp>, from: int, to: int, op: BinaryOp, spaced: bool) -> Seq<
    char,
>
    decreases to - from,
{
    if from >= to {
        Seq::empty()
    } else {
        sep_str(op, spaced) + fmt_exp(ops[from], Option::Some(op), spaced) + joined(
            ops,
            from + 1,
            to,
            op,
            spaced,
        )
    }
}

proof fn lemma_joined_step(ops: Seq<Exp>, from: int, to: int, op: BinaryOp, spaced: bool)
    requires
        0 <= from <= to < ops.len(),
    ensures
        joined(ops, from, to + 1, op, spaced) =~= joined(ops, from, to, op, spaced) + sep_str(
            op,
            spaced,
        ) + fmt_exp(ops[to], Option::Some(op), spaced),
    decreases to - from,
{
    if from < to {
        lemma_joined_step(ops, from + 1, to, op, spaced);
        assert(joined(ops, from, to + 1, op, spaced) =~= sep_str(op, spaced) + fmt_exp(
            ops[from],
            Option::Some(op),
            spaced,
        ) + joined(ops, from + 1, to + 1, op, spaced));
        assert(joined(ops, from, to, op, spaced) =~= sep_str(op, spaced) + fmt_exp(
            ops[from],
            Option::Some(op),
            spaced,
        ) + joined(ops, from + 1, to, op, spaced));
    } else {
        assert(joined(ops, from, to, op, spaced) =~= Seq::<char>::empty());
        assert(joined(ops, to + 1, to + 1, op, spaced) =~= Seq::<char>::empty());
    }
}

proof fn lemma_joined_is_fmt_ops(ops: Seq<Exp>, from: int, op: BinaryOp, spaced: bool)
    requires
        1 <= from <= ops.len(),
    ensures
        joined(ops, from, ops.len() as int, op, spaced) =~= fmt_ops(
            ops.subrange(from, ops.len() as int),
            op,
            spaced,
        ),
    decreases ops.len() - from,
{
    if from < ops.len() {
        lemma_joined_is_fmt_ops(ops, from + 1, op, spaced);
        assert(ops.subrange(from, ops.len() as int).drop_first() =~= ops.subrange(
            from + 1,
            ops.len() as int,
        ));
    }
}

} // verus!
