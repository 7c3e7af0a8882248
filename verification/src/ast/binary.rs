//! N-ary binary nodes and the collapsing `build` invariant.

use vstd::prelude::*;

use super::{lemma_views_of_seq_index, lemma_views_of_seq_len, views_of_seq, Ast, Exp};

verus! {

broadcast use {lemma_views_of_seq_len, lemma_views_of_seq_index};

/// Operator of an n-ary binary node.
#[derive(Debug, Clone, Copy, PartialEq, Eq, Structural)]
pub enum BinaryOp {
    Add,
    Mul,
    Pow,
}

/// A binary node under construction: an operator and its ordered operands.
#[derive(Debug, PartialEq, Eq)]
pub struct Binary {
    pub operator: BinaryOp,
    pub operands: Vec<Ast>,
}

/// The identity element of an operator: `0` for `Add`, `1` for `Mul` and
/// `Pow`.
pub open spec fn identity_int(op: BinaryOp) -> int {
    match op {
        BinaryOp::Add => 0,
        BinaryOp::Mul => 1,
        BinaryOp::Pow => 1,
    }
}

/// Finalize an operand list into a node: no operands collapse to the
/// operator's identity element, a single operand collapses to that operand
/// unwrapped, two or more stay an n-ary node.
pub open spec fn build_exp(op: BinaryOp, ops: Seq<Exp>) -> Exp {
    if ops.len() == 0 {
        Exp::Num(identity_int(op))
    } else if ops.len() == 1 {
        ops[0]
    } else {
        Exp::Binary(op, ops)
    }
}

impl Binary {
    /// An empty node for the given operator.
    pub fn new(operator: BinaryOp) -> (r: Binary)
        ensures
            r.operator == operator,
            views_of_seq(r.operands@) =~= Seq::<Exp>::empty(),
    {
        Binary { operator, operands: Vec::new() }
    }

    /// Builder form of [`Binary::push`].
    pub fn with(self, ast: Ast) -> (r: Binary)
        ensures
            r.operator == self.operator,
            views_of_seq(r.operands@) =~= views_of_seq(self.operands@).push(ast@),
    {
        let mut this = self;
        this.operands.push(ast);
        this
    }

    /// The product of the given node and `-1`.
    pub fn negate(ast: Ast) -> (r: Binary)
        ensures
            r.operator == BinaryOp::Mul,
            views_of_seq(r.operands@) =~= seq![ast@, Exp::Num(-1)],
    {
        Binary::new(BinaryOp::Mul).with(ast).with(Ast::Num(-1))
    }

    /// Append one more operand.
    pub fn push(&mut self, ast: Ast)
        ensures
            final(self).operator == old(self).operator,
            views_of_seq(final(self).operands@) =~= views_of_seq(old(self).operands@).push(
                ast@,
            ),
    {
        self.operands.push(ast);
    }

    /// Finalize into a node, collapsing empty and singleton operand lists.
    pub fn build(self) -> (r: Ast)
        ensures
            r@ == build_exp(self.operator, views_of_seq(self.operands@)),
    {
        let mut this = self;
        if this.operands.len() == 0 {
            match this.operator {
                BinaryOp::Add => Ast::Num(0),
                BinaryOp::Mul => Ast::Num(1),
                BinaryOp::Pow => Ast::Num(1),
            }
        } else if this.operands.len() == 1 {
            this.operands.pop().unwrap()
        } else {
            Ast::Binary(this)
        }
    }
}

} // verus!
