//! Cross-cutting algebraic laws of the library, stated and proved over the
//! ghost model.

use vstd::prelude::*;

use crate::ast::binary::{build_exp, BinaryOp};
use crate::ast::Exp;
use crate::eq::{equiv, lemma_equiv_operands_permutation, lemma_equiv_reflexive};
use crate::simplifier::binary_num_ops::{acc_literals, binary_fold_root, fold_all, fold_seq, non_literals};
use crate::simplifier::de_paren::{deparen_root, mul_combine, splice};
use crate::simplifier::factorize::{
    extract_exp, extracted_coefficient, extracted_factor, scan_hit, ExtractExp,
};
use crate::simplifier::{map_seq, pass_root, spec_map, Pass, DEPTH_LIMIT};

verus! {

proof fn lemma_fold_all_var(limit: nat, t: Exp)
    requires
        t is Var,
    ensures
        fold_all(limit, t) == t,
{
}

proof fn lemma_fold_seq_vars(limit: nat, s: Seq<Exp>)
    requires
        forall|i: int| 0 <= i < s.len() ==> (#[trigger] s[i]) is Var,
    ensures
        fold_seq(limit, s) =~= s,
    decreases s.len(),
{
    if s.len() > 0 && limit > 0 {
        lemma_fold_all_var((limit - 1) as nat, s[0]);
        lemma_fold_seq_vars(limit, s.drop_first());
    }
}

proof fn lemma_acc_literals_no_num(s: Seq<Exp>, acc: int, mul: bool)
    requires
        forall|i: int| 0 <= i < s.len() ==> !((#[trigger] s[i]) is Num),
    ensures
        acc_literals(s, acc, mul) == Option::Some(acc),
    decreases s.len(),
{
    if s.len() > 0 {
        lemma_acc_literals_no_num(s.drop_first(), acc, mul);
    }
}

proof fn lemma_non_literals_no_num(s: Seq<Exp>)
    requires
        forall|i: int| 0 <= i < s.len() ==> !((#[trigger] s[i]) is Num),
    ensures
        non_literals(s) =~= s,
    decreases s.len(),
{
    if s.len() > 0 {
        lemma_non_literals_no_num(s.drop_first());
    }
}

proof fn lemma_fold_all_var_mul(limit: nat, ops: Seq<Exp>)
    requires
        ops.len() >= 2,
        forall|i: int| 0 <= i < ops.len() ==> (#[trigger] ops[i]) is Var,
    ensures
        fold_all(limit, Exp::Binary(BinaryOp::Mul, ops)) == Exp::Binary(BinaryOp::Mul, ops),
{
    if limit > 0 {
        lemma_fold_seq_vars(limit, ops);
        lemma_acc_literals_no_num(ops, 1, true);
        lemma_non_literals_no_num(ops);
    }
}

proof fn lemma_splice_no_nested(op: BinaryOp, ops: Seq<Exp>)
    requires
        forall|i: int| 0 <= i < ops.len() ==> !((#[trigger] ops[i]) is Binary),
    ensures
        splice(op, ops) =~= ops,
    decreases ops.len(),
{
    if ops.len() > 0 {
        lemma_splice_no_nested(op, ops.drop_first());
    }
}

proof fn lemma_deparen_map_var_mul(ops: Seq<Exp>)
    requires
        ops.len() >= 2,
        forall|i: int| 0 <= i < ops.len() ==> (#[trigger] ops[i]) is Var,
    ensures
        spec_map(DEPTH_LIMIT as nat, Exp::Binary(BinaryOp::Mul, ops), Pass::DeParen)
            == Exp::Binary(BinaryOp::Mul, ops),
{
    let t = Exp::Binary(BinaryOp::Mul, ops);
    lemma_map_seq_vars_deparen(DEPTH_LIMIT as nat, ops);
    lemma_splice_no_nested(BinaryOp::Mul, ops);
    assert(map_seq(DEPTH_LIMIT as nat, ops, Pass::DeParen) == ops);
    assert(spec_map(DEPTH_LIMIT as nat, t, Pass::DeParen) == pass_root(
        Pass::DeParen,
        Exp::Binary(BinaryOp::Mul, map_seq(DEPTH_LIMIT as nat, ops, Pass::DeParen)),
    ));
    assert(splice(BinaryOp::Mul, ops) == ops);
    assert(t->Binary_0 == BinaryOp::Mul);
    assert(t->Binary_1 == ops);
    assert(build_exp(BinaryOp::Mul, splice(BinaryOp::Mul, ops)) == t);
    assert(deparen_root(t) == t);
}

proof fn lemma_map_seq_vars_deparen(limit: nat, s: Seq<Exp>)
    requires
        forall|i: int| 0 <= i < s.len() ==> (#[trigger] s[i]) is Var,
    ensures
        map_seq(limit, s, Pass::DeParen) =~= s,
    decreases s.len(),
{
    if s.len() > 0 && limit > 0 {
        lemma_map_seq_vars_deparen(limit, s.drop_first());
        assert(spec_map((limit - 1) as nat, s[0], Pass::DeParen) == s[0]) by {
            if limit > 1 {
                assert(deparen_root(s[0]) == s[0]);
            }
        }
    }
}

/// Reconstruction law, for a product of variables: when a factor extracts,
/// multiplying the coefficient back by the factor and folding once is
/// structurally equivalent to the term itself after one de-parenthesization
/// sweep and one fold sweep.
pub proof fn lemma_extract_roundtrip(ops: Seq<Exp>, f: Exp)
    requires
        ops.len() >= 2,
        forall|i: int| 0 <= i < ops.len() ==> (#[trigger] ops[i]) is Var,
        extract_exp(Exp::Binary(BinaryOp::Mul, ops), f) is Found,
    ensures
        ({
            let t = Exp::Binary(BinaryOp::Mul, ops);
            let r = extract_exp(t, f);
            equiv(
                fold_all(
                    DEPTH_LIMIT as nat,
                    mul_combine(extracted_coefficient(r), extracted_factor(r)),
                ),
                fold_all(
                    DEPTH_LIMIT as nat,
                    spec_map(DEPTH_LIMIT as nat, t, Pass::DeParen),
                ),
            )
        }),
{
    let t = Exp::Binary(BinaryOp::Mul, ops);
    let r = extract_exp(t, f);
    let j = scan_hit(ops, f);
    assert(0 <= j < ops.len());
    // On a product of variables the scan can only stop at a direct match.
    assert(equiv(ops[j], f)) by {
        if !equiv(ops[j], f) {
            assert(extract_exp(ops[j], f) == (ExtractExp::Missed { original: ops[j] }));
        }
    }
    let g = ops[j];
    let rest = ops.remove(j);
    assert(extracted_factor(r) == g);
    assert(extracted_coefficient(r) == build_exp(BinaryOp::Mul, rest));
    assert(forall|i: int| 0 <= i < rest.len() ==> (#[trigger] rest[i]) is Var);
    // The recombined product has the same operands with the factor moved to
    // the back.
    let back = rest.push(g);
    assert(mul_combine(extracted_coefficient(r), g) == Exp::Binary(BinaryOp::Mul, back)) by {
        if rest.len() == 1 {
            assert(build_exp(BinaryOp::Mul, rest) == rest[0]);
            assert(!(rest[0] is Binary));
            assert(seq![rest[0], g] =~= back);
        } else {
            assert(build_exp(BinaryOp::Mul, rest) == Exp::Binary(BinaryOp::Mul, rest));
        }
    }
    assert(forall|i: int| 0 <= i < back.len() ==> (#[trigger] back[i]) is Var);
    // Neither sweep changes either side.
    lemma_fold_all_var_mul(DEPTH_LIMIT as nat, back);
    lemma_deparen_map_var_mul(ops);
    lemma_fold_all_var_mul(DEPTH_LIMIT as nat, ops);
    // The two operand lists carry the same multiset.
    ops.to_multiset_ensures();
    rest.to_multiset_ensures();
    assert(rest.to_multiset() =~= ops.to_multiset().remove(g));
    assert(back.to_multiset() =~= rest.to_multiset().insert(g));
    assert(ops.contains(g));
    assert(ops.to_multiset().count(g) > 0);
    assert(back.to_multiset() =~= ops.to_multiset()) by {
        assert(forall|y: Exp| #[trigger] back.to_multiset().count(y) == ops.to_multiset().count(
            y,
        ));
    }
    lemma_equiv_operands_permutation(
        BinaryOp::Mul,
        Exp::Binary(BinaryOp::Mul, back),
        back,
        ops,
    );
    lemma_equiv_reflexive(Exp::Binary(BinaryOp::Mul, back));
}

proof fn lemma_fold_seq_is_pass_seq(limit: nat, s: Seq<Exp>)
    ensures
        fold_seq(limit, s) =~= map_seq(limit, s, Pass::BinaryNumOps),
    decreases limit, 0int, s.len(),
{
    if s.len() > 0 && limit > 0 {
        lemma_fold_sweep_is_binary_pass((limit - 1) as nat, s[0]);
        lemma_fold_seq_is_pass_seq(limit, s.drop_first());
    }
}

/// The fold sweep that normalizes an extracted exponent is the same
/// transformation as one pipeline sweep of the binary numeric fold.
pub proof fn lemma_fold_sweep_is_binary_pass(limit: nat, t: Exp)
    ensures
        fold_all(limit, t) == spec_map(limit, t, Pass::BinaryNumOps),
    decreases limit, 1int, 0int,
{
    if limit > 0 {
        match t {
            Exp::Binary(op, ops) => {
                lemma_fold_seq_is_pass_seq(limit, ops);
                assert(fold_seq(limit, ops) == map_seq(limit, ops, Pass::BinaryNumOps));
            }
            Exp::Unary(op, x) => {
                lemma_fold_sweep_is_binary_pass((limit - 1) as nat, *x);
            }
            _ => {}
        }
    }
}

} // verus!
