//! Unary nodes (factorial) and their rendering affix.

use vstd::prelude::*;

use super::{views_of_seq, Ast, Exp};

verus! {

/// Operator of a unary node.
#[derive(Debug, Clone, Copy, PartialEq, Eq, Structural)]
pub enum UnaryOp {
    Fac,
}

/// Whether a unary operator renders before or after its operand.
#[derive(Debug, Clone, Copy, PartialEq, Eq, Structural)]
pub enum UnaryAffix {
    Postfix,
    Prefix,
}

/// A unary node: an operator applied to one operand.
#[derive(Debug, PartialEq, Eq)]
pub struct Unary {
    pub operator: UnaryOp,
    pub operand: Box<Ast>,
}

impl Unary {
    /// Finalize into a node.
    pub fn build(self) -> (r: Ast)
        ensures
            r@ == Exp::Unary(self.operator, Box::new(self.operand@)),
    {
        Ast::Unary(self)
    }
}

impl UnaryOp {
    /// Where the operator stands when rendered: factorial is postfix.
    pub fn affix(&self) -> (r: UnaryAffix)
        ensures
            r == spec_affix(*self),
    {
        match self {
            UnaryOp::Fac => UnaryAffix::Postfix,
        }
    }
}

/// Rendering affix of a unary operator.
pub open spec fn spec_affix(op: UnaryOp) -> UnaryAffix {
    match op {
        UnaryOp::Fac => UnaryAffix::Postfix,
    }
}

impl Ast {
    /// Wrap a node under a unary operator.
    pub fn unary(operator: UnaryOp, operand: Ast) -> (r: Ast)
        ensures
            r@ == Exp::Unary(operator, Box::new(operand@)),
    {
        Ast::Unary(Unary { operator, operand: Box::new(operand) })
    }
}

} // verus!
