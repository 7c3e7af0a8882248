//! Numeric folding for the unary operators: small literal factorials.

use vstd::prelude::*;

use super::Simplifier;
use crate::ast::unary::{Unary, UnaryOp};
use crate::ast::{view_of, Ast, Exp};

verus! {

/// Factorial, the product of `1..=n`; `1` when `n` is not positive.
pub open spec fn fact(n: int) -> int
    decreases n,
{
    if n <= 0 {
        1
    } else {
        n * fact(n - 1)
    }
}

/// Root-level unary fold: a factorial of a literal `n` with `0 <= n <= 10`
/// becomes the literal `n!`; everything else is left unchanged.  Negative and
/// large operands are deliberately not folded.
pub open spec fn unary_fold_root(t: Exp) -> Exp {
    match t {
        Exp::Unary(UnaryOp::Fac, x) => match *x {
            Exp::Num(n) => if 0 <= n <= 10 {
                Exp::Num(fact(n))
            } else {
                t
            },
            _ => t,
        },
        _ => t,
    }
}

proof fn lemma_fact_pos(n: int)
    ensures
        fact(n) >= 1,
    decreases n,
{
    if n > 0 {
        lemma_fact_pos(n - 1);
        assert(n * fact(n - 1) >= fact(n - 1)) by (nonlinear_arith)
            requires
                n >= 1,
                fact(n - 1) >= 1,
        ;
    }
}

proof fn lemma_fact_mono(i: int, j: int)
    requires
        0 <= i <= j,
    ensures
        fact(i) <= fact(j),
    decreases j,
{
    if j > i {
        lemma_fact_mono(i, j - 1);
        lemma_fact_pos(j - 1);
        assert(fact(j - 1) <= j * fact(j - 1)) by (nonlinear_arith)
            requires
                j >= 1,
                fact(j - 1) >= 1,
        ;
    }
}

proof fn lemma_fact_ten()
    ensures
        fact(10) == 3628800,
{
    assert(fact(0) == 1);
    assert(fact(1) == 1);
    assert(fact(2) == 2);
    assert(fact(3) == 6);
    assert(fact(4) == 24);
    assert(fact(5) == 120);
    assert(fact(6) == 720);
    assert(fact(7) == 5040);
    assert(fact(8) == 40320);
    assert(fact(9) == 362880);
}

impl Simplifier {
    /// Fold the numeric work of one unary node; see [`unary_fold_root`].
    ///
    /// Example: `4!` becomes `24`.
    #[verifier::loop_isolation(false)]
    pub fn unary_num_ops(ast: Ast) -> (r: Ast)
        ensures
            r@ == unary_fold_root(ast@),
    {
        match ast {
            Ast::Unary(u) => {
                let small = match &*u.operand {
                    Ast::Num(n) => 0 <= *n && *n <= 10,
                    _ => false,
                };
                if small {
                    let n: i64 = match &*u.operand {
                        Ast::Num(v) => *v,
                        _ => 1,
                    };
                    proof {
                        lemma_fact_ten();
                        match u.operator {
                            UnaryOp::Fac => {}
                        }
                        assert(u.operator == UnaryOp::Fac);
                        assert(ast == Ast::Unary(u));
                        assert(ast@ == Exp::Unary(u.operator, Box::new(view_of(*u.operand))));
                        assert(*u.operand is Num);
                        assert(view_of(*u.operand) == Exp::Num(n as int));
                        assert(ast@ == Exp::Unary(u.operator, Box::new(Exp::Num(n as int))));
                    }
                    let mut f: i64 = 1;
                    let mut k: i64 = 0;
                    while k < n
                        invariant
                            0 <= k <= n <= 10,
                            f == fact(k as int),
                        decreases n - k,
                    {
                        let next = k + 1;
                        proof {
                            lemma_fact_mono(next as int, 10);
                            lemma_fact_pos(next as int);
                            assert(fact(next as int) == (next as int) * fact(next as int - 1));
                            assert((f as int) * (next as int) == fact(next as int))
                                by (nonlinear_arith)
                                requires
                                    f == fact(next as int - 1),
                                    fact(next as int) == (next as int) * fact(next as int - 1),
                            ;
                        }
                        f = f * next;
                        k = next;
                    }
                    Ast::Num(f)
                } else {
                    Ast::Unary(u)
                }
            }
            other => other,
        }
    }
}

} // verus!
