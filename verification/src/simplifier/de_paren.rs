//! Associativity flattening and power-tower collapse.

use vstd::prelude::*;

use super::Simplifier;
use crate::ast::binary::{build_exp, Binary, BinaryOp};
use crate::ast::{lemma_views_of_seq_index, lemma_views_of_seq_len, views_of_seq, Ast, Exp};

verus! {

broadcast use {lemma_views_of_seq_len, lemma_views_of_seq_index};

/// Splice every operand that is itself a node of the same operator into the
/// surrounding list, one level deep.
pub open spec fn splice(op: BinaryOp, ops: Seq<Exp>) -> Seq<Exp>
    decreases ops.len(),
{
    if ops.len() == 0 {
        Seq::empty()
    } else {
        let head = if ops[0] is Binary && ops[0]->Binary_0 == op {
            ops[0]->Binary_1
        } else {
            seq![ops[0]]
        };
        head + splice(op, ops.drop_first())
    }
}

/// The appending product combinator: multiplying onto an existing `Mul` node
/// appends an operand, anything else becomes a fresh two-operand `Mul`.
pub open spec fn mul_combine(a: Exp, b: Exp) -> Exp {
    if a is Binary && a->Binary_0 == BinaryOp::Mul {
        Exp::Binary(BinaryOp::Mul, a->Binary_1.push(b))
    } else {
        Exp::Binary(BinaryOp::Mul, seq![a, b])
    }
}

/// The appending power combinator, like [`mul_combine`] for `Pow`.
pub open spec fn pow_combine(a: Exp, b: Exp) -> Exp {
    if a is Binary && a->Binary_0 == BinaryOp::Pow {
        Exp::Binary(BinaryOp::Pow, a->Binary_1.push(b))
    } else {
        Exp::Binary(BinaryOp::Pow, seq![a, b])
    }
}

/// One right-to-left step of the tower collapse, `(x^y)^z = x^(y*z)`.
///
/// While the accumulator is still the neutral `1`, the operand replaces it
/// unchanged.  Otherwise a power operand is peeled: its base becomes the new
/// base, and its remaining tower times the accumulator the new exponent.  A
/// non-power operand is raised to the accumulator directly.
pub open spec fn tower_step(last: Exp, ast: Exp) -> Exp {
    if last == Exp::Num(1) {
        ast
    } else if ast is Binary && ast->Binary_0 == BinaryOp::Pow && ast->Binary_1.len() > 0 {
        let first = ast->Binary_1[0];
        let rest = ast->Binary_1.drop_first();
        pow_combine(first, mul_combine(build_exp(BinaryOp::Pow, rest), last))
    } else {
        pow_combine(ast, last)
    }
}

/// Fold a power tower right to left through [`tower_step`], starting from the
/// neutral `1`.
pub open spec fn tower_fold(ops: Seq<Exp>) -> Exp
    decreases ops.len(),
{
    if ops.len() == 0 {
        Exp::Num(1)
    } else {
        tower_step(tower_fold(ops.drop_first()), ops[0])
    }
}

/// Root-level de-parenthesization: flatten an `Add`, then (if the result is
/// one) a `Mul`, then collapse a `Pow` tower.
pub open spec fn deparen_root(t: Exp) -> Exp {
    let t1 = if t is Binary && t->Binary_0 == BinaryOp::Add {
        build_exp(BinaryOp::Add, splice(BinaryOp::Add, t->Binary_1))
    } else {
        t
    };
    let t2 = if t1 is Binary && t1->Binary_0 == BinaryOp::Mul {
        build_exp(BinaryOp::Mul, splice(BinaryOp::Mul, t1->Binary_1))
    } else {
        t1
    };
    if t2 is Binary && t2->Binary_0 == BinaryOp::Pow {
        tower_fold(t2->Binary_1)
    } else {
        t2
    }
}

impl Simplifier {
    /// Flatten one level of same-operator nesting under `op`.
    #[verifier::loop_isolation(false)]
    fn splice_exec(op: BinaryOp, operands: Vec<Ast>) -> (r: Vec<Ast>)
        ensures
            views_of_seq(r@) =~= splice(op, views_of_seq(operands@)),
    {
        let ghost full = views_of_seq(operands@);
        let mut rest = operands;
        let mut out: Vec<Ast> = Vec::new();
        let ghost mut seen: int = 0;
        proof {
            assert(full.skip(0) =~= full);
        }
        while rest.len() > 0
            invariant
                views_of_seq(rest@) =~= full.skip(seen),
                0 <= seen <= full.len(),
                splice(op, full) =~= views_of_seq(out@) + splice(op, full.skip(seen)),
            decreases rest.len(),
        {
            proof {
                assert(full.skip(seen).drop_first() =~= full.skip(seen + 1));
            }
            let x = rest.remove(0);
            let nested = match &x {
                Ast::Binary(b) => b.operator == op,
                _ => false,
            };
            if nested {
                match x {
                    Ast::Binary(b) => {
                        let ghost innerv = views_of_seq(b.operands@);
                        let ghost outv = views_of_seq(out@);
                        let mut inner = b.operands;
                        out.append(&mut inner);
                        proof {
                            assert(views_of_seq(out@) =~= outv + innerv);
                        }
                    }
                    _ => {}
                }
            } else {
                out.push(x);
            }
            proof {
                seen = seen + 1;
            }
        }
        proof {
            assert(splice(op, full) =~= views_of_seq(out@));
        }
        out
    }

    /// The appending product combinator; see [`mul_combine`].
    fn mul_combine_exec(a: Ast, b: Ast) -> (r: Ast)
        ensures
            r@ == mul_combine(a@, b@),
    {
        Self::append_combine(BinaryOp::Mul, a, b)
    }

    /// The appending power combinator; see [`pow_combine`].
    fn pow_combine_exec(a: Ast, b: Ast) -> (r: Ast)
        ensures
            r@ == pow_combine(a@, b@),
    {
        Self::append_combine(BinaryOp::Pow, a, b)
    }

    /// Append `b` onto `a` when `a` is already an `op` node, else build a
    /// fresh two-operand `op` node.
    fn append_combine(op: BinaryOp, a: Ast, b: Ast) -> (r: Ast)
        ensures
            r@ == (if a@ is Binary && a@->Binary_0 == op {
                Exp::Binary(op, a@->Binary_1.push(b@))
            } else {
                Exp::Binary(op, seq![a@, b@])
            }),
    {
        let ghost bv = b@;
        match a {
            Ast::Binary(bb) => {
                if bb.operator == op {
                    let ghost av = views_of_seq(bb.operands@);
                    proof {
                        assert(a@ == Exp::Binary(bb.operator, av));
                        assert(a@->Binary_1 == av);
                    }
                    let mut bb = bb;
                    bb.operands.push(b);
                    proof {
                        assert(views_of_seq(bb.operands@) =~= av.push(bv));
                    }
                    Ast::Binary(bb)
                } else {
                    Self::fresh_pair(op, Ast::Binary(bb), b)
                }
            }
            other => Self::fresh_pair(op, other, b),
        }
    }

    /// A fresh two-operand node.
    fn fresh_pair(op: BinaryOp, lhs: Ast, rhs: Ast) -> (r: Ast)
        ensures
            r@ == Exp::Binary(op, seq![lhs@, rhs@]),
    {
        let mut ops: Vec<Ast> = Vec::new();
        ops.push(lhs);
        ops.push(rhs);
        proof {
            assert(views_of_seq(ops@) =~= seq![ops@[0]@, ops@[1]@]);
        }
        Ast::Binary(Binary { operator: op, operands: ops })
    }

    /// One step of the tower collapse; see [`tower_step`].
    fn tower_step_exec(last: Ast, ast: Ast) -> (r: Ast)
        ensures
            r@ == tower_step(last@, ast@),
    {
        let neutral = match &last {
            Ast::Num(1) => true,
            _ => false,
        };
        if neutral {
            return ast;
        }
        match ast {
            Ast::Binary(b) => {
                if b.operator == BinaryOp::Pow && b.operands.len() > 0 {
                    let ghost innerv = views_of_seq(b.operands@);
                    proof {
                        assert(ast@ == Exp::Binary(b.operator, innerv));
                        assert(ast@->Binary_1 == innerv);
                    }
                    let mut inner = b.operands;
                    let first = inner.remove(0);
                    proof {
                        assert(first@ == innerv[0]);
                        assert(views_of_seq(inner@) =~= innerv.drop_first());
                    }
                    let tower = Binary { operator: BinaryOp::Pow, operands: inner }.build();
                    Self::pow_combine_exec(first, Self::mul_combine_exec(tower, last))
                } else {
                    Self::pow_combine_exec(Ast::Binary(b), last)
                }
            }
            other => Self::pow_combine_exec(other, last),
        }
    }

    /// Remove unnecessary parenthesization at the root of a node: replace
    /// `(a+b)+c` with `a+b+c`, `(a*b)*c` with `a*b*c`, and collapse
    /// `(x^y)^z` into `x^(y*z)` across the whole tower.
    #[verifier::loop_isolation(false)]
    pub fn de_paren(ast: Ast) -> (r: Ast)
        ensures
            r@ == deparen_root(ast@),
    {
        let ghost t0 = ast@;
        let mut ast = ast;
        let is_add = match &ast {
            Ast::Binary(b) => b.operator == BinaryOp::Add,
            _ => false,
        };
        if is_add {
            match ast {
                Ast::Binary(b) => {
                    let out = Self::splice_exec(BinaryOp::Add, b.operands);
                    ast = Binary { operator: BinaryOp::Add, operands: out }.build();
                }
                other => {
                    ast = other;
                }
            }
        }
        let is_mul = match &ast {
            Ast::Binary(b) => b.operator == BinaryOp::Mul,
            _ => false,
        };
        if is_mul {
            match ast {
                Ast::Binary(b) => {
                    let out = Self::splice_exec(BinaryOp::Mul, b.operands);
                    ast = Binary { operator: BinaryOp::Mul, operands: out }.build();
                }
                other => {
                    ast = other;
                }
            }
        }
        let is_pow = match &ast {
            Ast::Binary(b) => b.operator == BinaryOp::Pow,
            _ => false,
        };
        if is_pow {
            match ast {
                Ast::Binary(b) => {
                    let ghost full = views_of_seq(b.operands@);
                    let mut rest = b.operands;
                    let mut acc = Ast::Num(1);
                    proof {
                        assert(full.skip(rest.len() as int) =~= Seq::<Exp>::empty());
                    }
                    while rest.len() > 0
                        invariant
                            rest.len() <= full.len(),
                            views_of_seq(rest@) =~= full.take(rest.len() as int),
                            acc@ == tower_fold(full.skip(rest.len() as int)),
                        decreases rest.len(),
                    {
                        let ghost prevv = views_of_seq(rest@);
                        let ghost k = rest.len() as int;
                        let cur = rest.pop().unwrap();
                        proof {
                            assert(prevv[k - 1] == cur@);
                            assert(cur@ == full[k - 1]);
                            assert(views_of_seq(rest@) =~= full.take(k - 1));
                            assert(full.skip(k - 1).drop_first() =~= full.skip(k));
                            assert(full.skip(k - 1)[0] == full[k - 1]);
                        }
                        acc = Self::tower_step_exec(acc, cur);
                    }
                    proof {
                        assert(full.skip(0) =~= full);
                    }
                    ast = acc;
                }
                other => {
                    ast = other;
                }
            }
        }
        ast
    }
}

} // verus!
