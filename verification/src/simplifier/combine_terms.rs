//! Combining like terms across a sum: `x + x` becomes `2 * x`.

use vstd::prelude::*;

use super::factorize::{
    extract_exp, factors_exp, term_factor_extract, term_factors, ExtractExp,
    TermFactorExtractResult,
};
use super::Simplifier;
use crate::ast::binary::{build_exp, Binary, BinaryOp};
use crate::ast::{lemma_views_of_seq_index, lemma_views_of_seq_len, views_of_seq, Ast, Exp};

verus! {

broadcast use {lemma_views_of_seq_len, lemma_views_of_seq_index};

/// Whether some term other than the seed (the last one) extracts `f`.
pub open spec fn has_other_extract(terms: Seq<Exp>, f: Exp) -> bool {
    exists|j: int| 0 <= j < terms.len() - 1 && extract_exp(#[trigger] terms[j], f) is Found
}

/// The first factor in `fs` that at least one other remaining term also
/// extracts, if any.
pub open spec fn pick_factor(terms: Seq<Exp>, fs: Seq<Exp>) -> Option<Exp>
    decreases fs.len(),
{
    if fs.len() == 0 {
        Option::None
    } else if has_other_extract(terms, fs[0]) {
        Option::Some(fs[0])
    } else {
        pick_factor(terms, fs.drop_first())
    }
}

/// The coefficients of every term that extracts `f`, in order.
pub open spec fn coeffs_of(terms: Seq<Exp>, f: Exp) -> Seq<Exp>
    decreases terms.len(),
{
    if terms.len() == 0 {
        Seq::empty()
    } else {
        match extract_exp(terms[0], f) {
            ExtractExp::Found { factor, coefficient } => seq![coefficient] + coeffs_of(
                terms.drop_first(),
                f,
            ),
            ExtractExp::Missed { original } => coeffs_of(terms.drop_first(), f),
        }
    }
}

/// The terms that do not extract `f`, each as the (rebuilt) original that
/// extraction handed back, in order.
pub open spec fn survivors(terms: Seq<Exp>, f: Exp) -> Seq<Exp>
    decreases terms.len(),
{
    if terms.len() == 0 {
        Seq::empty()
    } else {
        match extract_exp(terms[0], f) {
            ExtractExp::Found { factor, coefficient } => survivors(terms.drop_first(), f),
            ExtractExp::Missed { original } => seq![original] + survivors(terms.drop_first(), f),
        }
    }
}

/// One round per seed term, last term first: group by the picked factor, or
/// keep the seed unchanged when none of its factors is shared.  Results come
/// in processing order (so, reversed).
pub open spec fn combine_loop(terms: Seq<Exp>) -> Seq<Exp>
    decreases terms.len(),
    via combine_loop_decreases
{
    if terms.len() == 0 {
        Seq::empty()
    } else {
        let seed = terms.last();
        match pick_factor(terms, factors_exp(seed)) {
            Option::Some(f) => {
                let grouped = Exp::Binary(
                    BinaryOp::Mul,
                    seq![build_exp(BinaryOp::Add, coeffs_of(terms, f)), f],
                );
                seq![grouped] + combine_loop(survivors(terms, f))
            }
            Option::None => seq![seed] + combine_loop(terms.drop_last()),
        }
    }
}

#[via_fn]
proof fn combine_loop_decreases(terms: Seq<Exp>) {
    if terms.len() > 0 {
        let seed = terms.last();
        match pick_factor(terms, factors_exp(seed)) {
            Option::Some(f) => {
                lemma_pick_some_has_other(terms, factors_exp(seed), f);
                lemma_survivors_shorter(terms, f);
            }
            Option::None => {}
        }
    }
}

proof fn lemma_pick_some_has_other(terms: Seq<Exp>, fs: Seq<Exp>, f: Exp)
    requires
        pick_factor(terms, fs) == Option::Some(f),
    ensures
        has_other_extract(terms, f),
    decreases fs.len(),
{
    if fs.len() > 0 && !has_other_extract(terms, fs[0]) {
        lemma_pick_some_has_other(terms, fs.drop_first(), f);
    }
}

proof fn lemma_survivors_le(terms: Seq<Exp>, f: Exp)
    ensures
        survivors(terms, f).len() <= terms.len(),
    decreases terms.len(),
{
    if terms.len() > 0 {
        lemma_survivors_le(terms.drop_first(), f);
    }
}

proof fn lemma_survivors_shorter(terms: Seq<Exp>, f: Exp)
    requires
        has_other_extract(terms, f),
    ensures
        survivors(terms, f).len() < terms.len(),
    decreases terms.len(),
{
    let j = choose|j: int|
        0 <= j < terms.len() - 1 && extract_exp(#[trigger] terms[j], f) is Found;
    if extract_exp(terms[0], f) is Found {
        lemma_survivors_le(terms.drop_first(), f);
    } else {
        assert(j >= 1);
        assert(terms.drop_first()[j - 1] == terms[j]);
        assert(has_other_extract(terms.drop_first(), f));
        lemma_survivors_shorter(terms.drop_first(), f);
    }
}

proof fn lemma_pick_at(terms: Seq<Exp>, fs: Seq<Exp>, i: int)
    requires
        0 <= i <= fs.len(),
        forall|k: int| 0 <= k < i ==> !has_other_extract(terms, #[trigger] fs[k]),
    ensures
        i < fs.len() && has_other_extract(terms, fs[i]) ==> pick_factor(terms, fs)
            == Option::Some(fs[i]),
        i == fs.len() ==> pick_factor(terms, fs) is None,
    decreases i,
{
    if i > 0 {
        assert(!has_other_extract(terms, fs[0]));
        lemma_pick_at(terms, fs.drop_first(), i - 1);
    }
}

/// The like-term combination pass at the root of a sum.
pub open spec fn combine_root(t: Exp) -> Exp {
    match t {
        Exp::Binary(BinaryOp::Add, ops) => build_exp(BinaryOp::Add, combine_loop(ops).reverse()),
        _ => t,
    }
}

impl Simplifier {
    /// Index of the first factor that at least one term besides the last
    /// also extracts.
    #[verifier::loop_isolation(false)]
    fn find_shared_factor(terms: &Vec<Ast>, factors: &Vec<Ast>) -> (r: Option<usize>)
        requires
            terms.len() > 0,
        ensures
            match r {
                Option::Some(fi) => fi < factors.len() && pick_factor(
                    views_of_seq(terms@),
                    views_of_seq(factors@),
                ) == Option::Some(views_of_seq(factors@)[fi as int]),
                Option::None => pick_factor(views_of_seq(terms@), views_of_seq(factors@)) is None,
            },
    {
        let ghost tv = views_of_seq(terms@);
        let ghost fsv = views_of_seq(factors@);
        let seed_index = terms.len() - 1;
        let mut fi: usize = 0;
        let mut fi_found = false;
        while fi < factors.len() && !fi_found
            invariant
                0 <= fi <= factors.len(),
                forall|k: int| 0 <= k < fi ==> !has_other_extract(tv, #[trigger] fsv[k]),
                fi_found ==> fi < factors.len() && has_other_extract(tv, fsv[fi as int]),
            decreases factors.len() - fi + (if fi_found { 0int } else { 1int }),
        {
            let mut j: usize = 0;
            let mut j_found = false;
            while j < seed_index && !j_found
                invariant
                    0 <= j <= seed_index,
                    fi < factors.len(),
                    !j_found ==> forall|l: int|
                        0 <= l < j ==> !(extract_exp(#[trigger] tv[l], fsv[fi as int]) is Found),
                    j_found ==> has_other_extract(tv, fsv[fi as int]),
                decreases seed_index - j + (if j_found { 0int } else { 1int }),
            {
                let probe = term_factor_extract(terms[j].duplicate(), &factors[fi]);
                match probe {
                    TermFactorExtractResult::Found { factor: _, coefficient: _ } => {
                        proof {
                            assert(extract_exp(tv[j as int], fsv[fi as int]) is Found);
                        }
                        j_found = true;
                    }
                    TermFactorExtractResult::Missed { original: _ } => {
                        j = j + 1;
                    }
                }
            }
            if j_found {
                fi_found = true;
            } else {
                proof {
                    assert(!has_other_extract(tv, fsv[fi as int])) by {
                        if has_other_extract(tv, fsv[fi as int]) {
                            let l = choose|l: int|
                                0 <= l < tv.len() - 1 && extract_exp(
                                    #[trigger] tv[l],
                                    fsv[fi as int],
                                ) is Found;
                            assert(!(extract_exp(tv[l], fsv[fi as int]) is Found));
                        }
                    }
                }
                fi = fi + 1;
            }
        }
        if fi_found {
            proof {
                lemma_pick_at(tv, fsv, fi as int);
            }
            Option::Some(fi)
        } else {
            proof {
                lemma_pick_at(tv, fsv, fsv.len() as int);
            }
            Option::None
        }
    }

    /// Divide every term by `factor`, collecting the quotients of the terms
    /// that divide and keeping the rest.
    #[verifier::loop_isolation(false)]
    fn group_terms(terms: Vec<Ast>, factor: &Ast) -> (r: (Vec<Ast>, Vec<Ast>))
        ensures
            views_of_seq(r.0@) =~= coeffs_of(views_of_seq(terms@), factor@),
            views_of_seq(r.1@) =~= survivors(views_of_seq(terms@), factor@),
    {
        let ghost tv = views_of_seq(terms@);
        let ghost fv = factor@;
        let mut rest = terms;
        let mut quotients: Vec<Ast> = Vec::new();
        let mut kept: Vec<Ast> = Vec::new();
        let ghost mut seen: int = 0;
        proof {
            assert(tv.skip(0) =~= tv);
        }
        while rest.len() > 0
            invariant
                views_of_seq(rest@) =~= tv.skip(seen),
                0 <= seen <= tv.len(),
                coeffs_of(tv, fv) =~= views_of_seq(quotients@) + coeffs_of(tv.skip(seen), fv),
                survivors(tv, fv) =~= views_of_seq(kept@) + survivors(tv.skip(seen), fv),
            decreases rest.len(),
        {
            proof {
                assert(tv.skip(seen).drop_first() =~= tv.skip(seen + 1));
            }
            let t0 = rest.remove(0);
            match term_factor_extract(t0, factor) {
                TermFactorExtractResult::Found { factor: _, coefficient } => {
                    quotients.push(coefficient);
                }
                TermFactorExtractResult::Missed { original } => {
                    kept.push(original);
                }
            }
            proof {
                seen = seen + 1;
            }
        }
        proof {
            assert(coeffs_of(tv, fv) =~= views_of_seq(quotients@));
            assert(survivors(tv, fv) =~= views_of_seq(kept@));
        }
        (quotients, kept)
    }

    /// Combine like terms across a sum; see [`combine_root`].
    ///
    /// Working from the last term backwards, the pass looks for the first
    /// factor of that term which at least one other remaining term can also
    /// be divided by; all terms that divide are replaced by one product of
    /// the factor and the sum of the quotients.  A term sharing no factor is
    /// kept unchanged.  Example: `x + x` becomes `(1 + 1) * x`.
    #[verifier::rlimit(80)]
    #[verifier::loop_isolation(false)]
    pub fn combine_terms(ast: Ast) -> (r: Ast)
        ensures
            r@ == combine_root(ast@),
    {
        match ast {
            Ast::Binary(b) => {
                if !(b.operator == BinaryOp::Add) {
                    return Ast::Binary(b);
                }
                let ghost orig = views_of_seq(b.operands@);
                proof {
                    assert(ast@ == Exp::Binary(BinaryOp::Add, orig));
                }
                let mut terms = b.operands;
                let mut new_terms: Vec<Ast> = Vec::new();
                while terms.len() > 0
                    invariant
                        combine_loop(orig) =~= views_of_seq(new_terms@) + combine_loop(
                            views_of_seq(terms@),
                        ),
                    decreases terms.len(),
                {
                    let ghost tv = views_of_seq(terms@);
                    let seed_index = terms.len() - 1;
                    let factors = term_factors(&terms[seed_index]);
                    let ghost fsv = views_of_seq(factors@);
                    proof {
                        assert(tv.last() == tv[seed_index as int]);
                        assert(fsv =~= factors_exp(tv.last()));
                    }
                    match Self::find_shared_factor(&terms, &factors) {
                        Option::Some(fi) => {
                            let mut factors = factors;
                            let factor = factors.remove(fi);
                            let ghost fv = factor@;
                            proof {
                                assert(fv == fsv[fi as int]);
                                assert(pick_factor(tv, factors_exp(tv.last()))
                                    == Option::Some(fv));
                            }
                            let pair = Self::group_terms(terms, &factor);
                            let quotients = pair.0;
                            let survived = pair.1;
                            let mut coeff = Binary::new(BinaryOp::Add);
                            let ghost qv = views_of_seq(quotients@);
                            let mut coeff_ops = quotients;
                            coeff.operands.append(&mut coeff_ops);
                            proof {
                                assert(views_of_seq(coeff.operands@) =~= qv);
                            }
                            let grouped = Binary::new(BinaryOp::Mul).with(coeff.build()).with(
                                factor,
                            ).build();
                            proof {
                                assert(Seq::<Exp>::empty().push(
                                    build_exp(BinaryOp::Add, coeffs_of(tv, fv)),
                                ).push(fv) =~= seq![
                                    build_exp(BinaryOp::Add, coeffs_of(tv, fv)),
                                    fv,
                                ]);
                                assert(grouped@ == Exp::Binary(
                                    BinaryOp::Mul,
                                    seq![build_exp(BinaryOp::Add, coeffs_of(tv, fv)), fv],
                                ));
                            }
                            new_terms.push(grouped);
                            terms = survived;
                            proof {
                                lemma_pick_some_has_other(tv, factors_exp(tv.last()), fv);
                                lemma_survivors_shorter(tv, fv);
                            }
                        }
                        Option::None => {
                            proof {
                                assert(pick_factor(tv, factors_exp(tv.last())) is None);
                            }
                            let kept = terms.pop().unwrap();
                            proof {
                                assert(kept@ == tv.last());
                                assert(views_of_seq(terms@) =~= tv.drop_last());
                            }
                            new_terms.push(kept);
                        }
                    }
                }
                proof {
                    assert(views_of_seq(terms@) =~= Seq::<Exp>::empty());
                    assert(combine_loop(orig) =~= views_of_seq(new_terms@));
                }
                let mut rev: Vec<Ast> = Vec::new();
                while new_terms.len() > 0
                    invariant
                        combine_loop(orig).reverse() =~= views_of_seq(rev@) + views_of_seq(
                            new_terms@,
                        ).reverse(),
                    decreases new_terms.len(),
                {
                    let x = new_terms.pop().unwrap();
                    rev.push(x);
                }
                proof {
                    assert(combine_loop(orig).reverse() =~= views_of_seq(rev@));
                }
                Binary { operator: BinaryOp::Add, operands: rev }.build()
            }
            other => other,
        }
    }
}

} // verus!
