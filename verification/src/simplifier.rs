//! The rewrite pipeline: bottom-up passes over the expression tree.

use vstd::prelude::*;

pub mod binary_num_ops;
pub mod combine_terms;
pub mod de_paren;
pub mod factorize;
pub mod unary_num_ops;

use crate::ast::binary::Binary;
use crate::ast::unary::Unary;
use crate::ast::{lemma_views_of_seq_index, lemma_views_of_seq_len, views_of_seq, Ast, Exp};
use binary_num_ops::binary_fold_root;
use combine_terms::combine_root;
use de_paren::deparen_root;
use unary_num_ops::unary_fold_root;

verus! {

/// Namespace for the rewrite passes.
pub struct Simplifier;

/// Depth budget of one bottom-up sweep; subtrees deeper than this are left
/// untouched.
pub const DEPTH_LIMIT: usize = 32;

/// The four rewrite passes, in their pipeline order.
#[derive(Debug, Clone, Copy, PartialEq, Eq, Structural)]
pub enum Pass {
    DeParen,
    CombineTerms,
    UnaryNumOps,
    BinaryNumOps,
}

/// Root-level application of one pass.
pub open spec fn pass_root(p: Pass, t: Exp) -> Exp {
    match p {
        Pass::DeParen => deparen_root(t),
        Pass::CombineTerms => combine_root(t),
        Pass::UnaryNumOps => unary_fold_root(t),
        Pass::BinaryNumOps => binary_fold_root(t),
    }
}

/// One bottom-up sweep of a pass with a depth budget: children are rewritten
/// first, then the rebuilt node itself; a zero budget leaves the subtree
/// as it stands.
pub open spec fn spec_map(limit: nat, t: Exp, p: Pass) -> Exp
    decreases limit, 1int, 0int,
{
    if limit == 0 {
        t
    } else {
        pass_root(
            p,
            match t {
                Exp::Binary(op, ops) => Exp::Binary(op, map_seq(limit, ops, p)),
                Exp::Unary(op, x) => Exp::Unary(
                    op,
                    Box::new(spec_map((limit - 1) as nat, *x, p)),
                ),
                leaf => leaf,
            },
        )
    }
}

/// Elementwise [`spec_map`] at one less depth.
pub open spec fn map_seq(limit: nat, s: Seq<Exp>, p: Pass) -> Seq<Exp>
    decreases limit, 0int, s.len(),
{
    if s.len() == 0 {
        Seq::empty()
    } else if limit == 0 {
        s
    } else {
        seq![spec_map((limit - 1) as nat, s[0], p)] + map_seq(limit, s.drop_first(), p)
    }
}

/// The full pipeline: one sweep each of de-parenthesization, like-term
/// combination, unary folding and binary folding, in that order.
pub open spec fn spec_run(t: Exp) -> Exp {
    spec_map(
        DEPTH_LIMIT as nat,
        spec_map(
            DEPTH_LIMIT as nat,
            spec_map(
                DEPTH_LIMIT as nat,
                spec_map(DEPTH_LIMIT as nat, t, Pass::DeParen),
                Pass::CombineTerms,
            ),
            Pass::UnaryNumOps,
        ),
        Pass::BinaryNumOps,
    )
}

impl Simplifier {
    /// Root-level application of one pass.
    fn apply(p: Pass, ast: Ast) -> (r: Ast)
        ensures
            r@ == pass_root(p, ast@),
    {
        match p {
            Pass::DeParen => Self::de_paren(ast),
            Pass::CombineTerms => Self::combine_terms(ast),
            Pass::UnaryNumOps => Self::unary_num_ops(ast),
            Pass::BinaryNumOps => Self::binary_num_ops(ast),
        }
    }

    /// Run the full pipeline once over the tree; see [`spec_run`].
    ///
    /// Each pass makes a single bottom-up sweep; the pipeline is not
    /// iterated to a fixed point, so a caller wanting further reduction
    /// runs it again.
    pub fn run(ast: Ast) -> (r: Ast)
        ensures
            r@ == spec_run(ast@),
    {
        let ast = ast.map(DEPTH_LIMIT, Pass::DeParen);
        let ast = ast.map(DEPTH_LIMIT, Pass::CombineTerms);
        let ast = ast.map(DEPTH_LIMIT, Pass::UnaryNumOps);
        let ast = ast.map(DEPTH_LIMIT, Pass::BinaryNumOps);
        ast
    }
}

impl Ast {
    /// One bottom-up sweep of `pass` over the tree, to `limit` depth; see
    /// [`spec_map`].
    #[verifier::loop_isolation(false)]
    pub fn map(self, limit: usize, pass: Pass) -> (r: Ast)
        ensures
            r@ == spec_map(limit as nat, self@, pass),
        decreases limit,
    {
        proof {
            broadcast use {lemma_views_of_seq_len, lemma_views_of_seq_index};
        }
        if limit == 0 {
            return self;
        }
        let stepped = match self {
            Ast::Binary(b) => {
                let ghost full = views_of_seq(b.operands@);
                let mut rest = b.operands;
                let mut out: Vec<Ast> = Vec::new();
                let ghost mut seen: int = 0;
                proof {
                    assert(full.skip(0) =~= full);
                }
                while rest.len() > 0
                    invariant
                        views_of_seq(rest@) =~= full.skip(seen),
                        0 <= seen <= full.len(),
                        map_seq(limit as nat, full, pass) =~= views_of_seq(out@) + map_seq(
                            limit as nat,
                            full.skip(seen),
                            pass,
                        ),
                    decreases rest.len(),
                {
                    proof {
                        assert(full.skip(seen).drop_first() =~= full.skip(seen + 1));
                    }
                    let x = rest.remove(0);
                    out.push(x.map(limit - 1, pass));
                    proof {
                        seen = seen + 1;
                    }
                }
                proof {
                    assert(map_seq(limit as nat, full, pass) =~= views_of_seq(out@));
                }
                Ast::Binary(Binary { operator: b.operator, operands: out })
            }
            Ast::Unary(u) => {
                let Unary { operator, operand } = u;
                let ghost ov = operand@;
                let inner = (*operand).map(limit - 1, pass);
                let r = Ast::Unary(Unary { operator, operand: Box::new(inner) });
                proof {
                    assert(r@ == Exp::Unary(
                        operator,
                        Box::new(spec_map((limit - 1) as nat, ov, pass)),
                    ));
                }
                r
            }
            leaf => leaf,
        };
        Simplifier::apply(pass, stepped)
    }
}

} // verus!
