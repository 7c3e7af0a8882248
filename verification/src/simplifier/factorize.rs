//! Term-factor algebra: enumerate the factors of a multiplicative term and
//! divide a term by one of them.

use vstd::prelude::*;

use super::binary_num_ops::fold_all;
use super::Simplifier;
use crate::ast::binary::{build_exp, Binary, BinaryOp};
use crate::ast::{lemma_views_of_seq_index, lemma_views_of_seq_len, views_of_seq, Ast, Exp};
use crate::eq::equiv;

verus! {

broadcast use {lemma_views_of_seq_len, lemma_views_of_seq_index};

/// Depth budget of the numeric fold that normalizes an extracted exponent.
pub const FOLD_DEPTH: usize = 32;

/// Number of nodes in a tree; the termination measure for extraction.
pub open spec fn size_exp(t: Exp) -> nat
    decreases t,
{
    match t {
        Exp::Binary(op, ops) => 1 + size_list(ops),
        Exp::Unary(op, x) => 1 + size_exp(*x),
        _ => 1,
    }
}

/// Total number of nodes in a sequence of trees.
pub open spec fn size_list(s: Seq<Exp>) -> nat
    decreases s,
{
    if s.len() == 0 {
        0
    } else {
        size_exp(s[0]) + size_list(s.drop_first())
    }
}

proof fn lemma_size_list_element(s: Seq<Exp>, i: int)
    requires
        0 <= i < s.len(),
    ensures
        size_exp(s[i]) <= size_list(s),
    decreases s.len(),
{
    if i > 0 {
        lemma_size_list_element(s.drop_first(), i - 1);
    }
}

/// The factor candidates of a multiplicative term, in depth-first,
/// left-to-right order.
///
/// A product yields the factors of each operand in turn; a power tower
/// yields the factors of its leftmost operand only, never touching the
/// exponents; an empty tower yields nothing; anything else yields itself.
pub open spec fn factors_exp(t: Exp) -> Seq<Exp>
    decreases t,
{
    match t {
        Exp::Binary(BinaryOp::Mul, ops) => factors_list(ops),
        Exp::Binary(BinaryOp::Pow, ops) => if ops.len() == 0 {
            Seq::empty()
        } else {
            factors_exp(ops[0])
        },
        other => seq![other],
    }
}

/// Concatenated factor candidates of a list of operands.
pub open spec fn factors_list(ops: Seq<Exp>) -> Seq<Exp>
    decreases ops,
{
    if ops.len() == 0 {
        Seq::empty()
    } else {
        factors_exp(ops[0]) + factors_list(ops.drop_first())
    }
}

/// Ghost model of an extraction outcome: the factor that was divided out and
/// the remaining coefficient, or the unchanged term.
#[verifier::ext_equal]
pub enum ExtractExp {
    Found { factor: Exp, coefficient: Exp },
    Missed { original: Exp },
}

/// Whether scanning stops at `e`: a direct structural match or a successful
/// nested extraction.
pub open spec fn hit(e: Exp, f: Exp) -> bool
    decreases e, 1int,
{
    equiv(e, f) || extract_exp(e, f) is Found
}

/// Index of the first operand where the scan of a product stops, or the
/// length of the list when none does.
pub open spec fn scan_hit(ops: Seq<Exp>, f: Exp) -> int
    decreases ops, 0int,
{
    if ops.len() == 0 {
        0
    } else if hit(ops[0], f) {
        0
    } else {
        1 + scan_hit(ops.drop_first(), f)
    }
}

proof fn lemma_scan_hit_at(s: Seq<Exp>, f: Exp, i: int)
    requires
        0 <= i <= s.len(),
        forall|k: int| 0 <= k < i ==> !hit(#[trigger] s[k], f),
    ensures
        i < s.len() && hit(s[i], f) ==> scan_hit(s, f) == i,
        i == s.len() ==> scan_hit(s, f) == s.len(),
    decreases i,
{
    if i > 0 {
        lemma_scan_hit_at(s.drop_first(), f, i - 1);
        assert(!hit(s[0], f));
    } else {
        if s.len() > 0 && !hit(s[0], f) {
            lemma_scan_hit_bounds(s.drop_first(), f);
        }
    }
}

proof fn lemma_scan_hit_bounds(s: Seq<Exp>, f: Exp)
    ensures
        0 <= scan_hit(s, f) <= s.len(),
    decreases s.len(),
{
    if s.len() > 0 && !hit(s[0], f) {
        lemma_scan_hit_bounds(s.drop_first(), f);
    }
}

/// Divide `t` by `f`; see [`term_factor_extract`] for the rules.
pub open spec fn extract_exp(t: Exp, f: Exp) -> ExtractExp
    decreases t, 0int,
{
    match t {
        Exp::Binary(BinaryOp::Mul, ops) => {
            let i = scan_hit(ops, f);
            if 0 <= i < ops.len() {
                if equiv(ops[i], f) {
                    ExtractExp::Found {
                        factor: ops[i],
                        coefficient: build_exp(BinaryOp::Mul, ops.remove(i)),
                    }
                } else {
                    match extract_exp(ops[i], f) {
                        ExtractExp::Found { factor, coefficient } => ExtractExp::Found {
                            factor,
                            coefficient: build_exp(BinaryOp::Mul, ops.update(i, coefficient)),
                        },
                        ExtractExp::Missed { original } => ExtractExp::Missed { original },
                    }
                }
            } else {
                ExtractExp::Missed { original: build_exp(BinaryOp::Mul, ops) }
            }
        }
        Exp::Binary(BinaryOp::Pow, ops) => {
            if ops.len() > 0 {
                let matched = if f is Binary && f->Binary_0 == BinaryOp::Pow {
                    f->Binary_1.len() > 0 && equiv(ops[0], f->Binary_1[0])
                } else {
                    equiv(ops[0], f)
                };
                if matched {
                    let rest = ops.drop_first();
                    let lhs_ops = if rest.len() == 0 {
                        seq![Exp::Num(1)]
                    } else {
                        rest
                    };
                    let rhs_ops = if f is Binary && f->Binary_0 == BinaryOp::Pow {
                        f->Binary_1.drop_first()
                    } else {
                        seq![Exp::Num(1)]
                    };
                    let minus = build_exp(
                        BinaryOp::Mul,
                        seq![build_exp(BinaryOp::Pow, rhs_ops), Exp::Num(-1)],
                    );
                    let expo = build_exp(
                        BinaryOp::Add,
                        seq![build_exp(BinaryOp::Pow, lhs_ops), minus],
                    );
                    let coeff = build_exp(BinaryOp::Pow, seq![ops[0], expo]);
                    ExtractExp::Found {
                        factor: ops[0],
                        coefficient: fold_all(FOLD_DEPTH as nat, coeff),
                    }
                } else {
                    ExtractExp::Missed { original: build_exp(BinaryOp::Pow, ops) }
                }
            } else {
                ExtractExp::Missed { original: build_exp(BinaryOp::Pow, ops) }
            }
        }
        other => if equiv(other, f) {
            ExtractExp::Found { factor: other, coefficient: Exp::Num(1) }
        } else {
            ExtractExp::Missed { original: other }
        },
    }
}

/// Outcome of dividing a term by a factor: the factor and the remaining
/// coefficient, or the term unchanged.
#[derive(Debug, PartialEq, Eq)]
pub enum TermFactorExtractResult {
    Found { factor: Ast, coefficient: Ast },
    Missed { original: Ast },
}

impl View for TermFactorExtractResult {
    type V = ExtractExp;

    open spec fn view(&self) -> ExtractExp {
        match self {
            TermFactorExtractResult::Found { factor, coefficient } => ExtractExp::Found {
                factor: factor@,
                coefficient: coefficient@,
            },
            TermFactorExtractResult::Missed { original } => ExtractExp::Missed { original: original@ },
        }
    }
}

/// Factor candidates of `term`, in depth-first, left-to-right order.
///
/// For example `2*x*y^2` yields `2`, `x`, `y`.
#[verifier::loop_isolation(false)]
pub fn term_factors(term: &Ast) -> (r: Vec<Ast>)
    ensures
        views_of_seq(r@) =~= factors_exp(term@),
    decreases term,
{
    match term {
        Ast::Binary(b) => {
            let ghost full = views_of_seq(b.operands@);
            proof {
                assert(term@ == Exp::Binary(b.operator, full));
            }
            if b.operator == BinaryOp::Mul {
                let mut out: Vec<Ast> = Vec::new();
                let mut i: usize = 0;
                proof {
                    assert(full.skip(0) =~= full);
                }
                while i < b.operands.len()
                    invariant
                        0 <= i <= b.operands.len(),
                        factors_list(full) =~= views_of_seq(out@) + factors_list(
                            full.skip(i as int),
                        ),
                    decreases b.operands.len() - i,
                {
                    proof {
                        assert(decreases_to!(*term => term->Binary_0));
                        assert(decreases_to!(term->Binary_0 => term->Binary_0.operands));
                        assert(decreases_to!(term->Binary_0.operands => term->Binary_0.operands@));
                        assert(decreases_to!(term->Binary_0.operands@
                            => term->Binary_0.operands@[i as int]));
                        assert(term->Binary_0.operands@[i as int] == b.operands@[i as int]);
                        assert(full.skip(i as int).drop_first() =~= full.skip(i as int + 1));
                        assert(full.skip(i as int)[0] == full[i as int]);
                    }
                    let ghost outv = views_of_seq(out@);
                    let mut part = term_factors(&b.operands[i]);
                    let ghost partv = views_of_seq(part@);
                    out.append(&mut part);
                    proof {
                        assert(views_of_seq(out@) =~= outv + partv);
                    }
                    i = i + 1;
                }
                proof {
                    assert(factors_list(full) =~= views_of_seq(out@));
                }
                out
            } else if b.operator == BinaryOp::Pow {
                if b.operands.len() > 0 {
                    proof {
                        assert(decreases_to!(*term => term->Binary_0));
                        assert(decreases_to!(term->Binary_0 => term->Binary_0.operands));
                        assert(decreases_to!(term->Binary_0.operands => term->Binary_0.operands@));
                        assert(decreases_to!(term->Binary_0.operands@
                            => term->Binary_0.operands@[0]));
                        assert(term->Binary_0.operands@[0] == b.operands@[0]);
                    }
                    term_factors(&b.operands[0])
                } else {
                    Vec::new()
                }
            } else {
                let mut out: Vec<Ast> = Vec::new();
                out.push(term.duplicate());
                proof {
                    assert(views_of_seq(out@) =~= seq![term@]);
                }
                out
            }
        }
        other => {
            let mut out: Vec<Ast> = Vec::new();
            out.push(other.duplicate());
            proof {
                assert(views_of_seq(out@) =~= seq![other@]);
            }
            out
        }
    }
}

/// Divide `term` by `factor`, returning the factor that was taken out and
/// the remaining coefficient.
///
/// A product is scanned left to right: an operand structurally equivalent to
/// `factor` is removed, and otherwise the first operand from which `factor`
/// can be extracted is replaced in place by its extracted coefficient.  A
/// power tower whose base matches the factor's base divides exponents:
/// `x^y / x^z` is `x^(y-z)`, with the new exponent normalized by one
/// numeric-fold sweep.  A term equivalent to the factor itself yields the
/// coefficient `1`.  Anything else is returned unchanged.
///
/// For example `2*x*y^2` divided by `x` gives factor `x` and coefficient
/// `2*y^2`.
#[verifier::rlimit(60)]
#[verifier::loop_isolation(false)]
pub fn term_factor_extract(term: Ast, factor: &Ast) -> (r: TermFactorExtractResult)
    ensures
        r@ == extract_exp(term@, factor@),
    decreases size_exp(term@),
{
    let ghost fv = factor@;
    match term {
        Ast::Binary(b) => {
            if b.operator == BinaryOp::Mul {
                let ghost full = views_of_seq(b.operands@);
                proof {
                    assert(term@ == Exp::Binary(BinaryOp::Mul, full));
                    assert(term@->Binary_1 == full);
                }
                let mut ops = b.operands;
                let mut i: usize = 0;
                while i < ops.len()
                    invariant
                        0 <= i <= full.len(),
                        views_of_seq(ops@) =~= full,
                        forall|k: int| 0 <= k < i ==> !hit(#[trigger] full[k], fv),
                    decreases ops.len() - i,
                {
                    let direct = ops[i].structural_eq(factor);
                    if direct {
                        proof {
                            lemma_scan_hit_at(full, fv, i as int);
                            assert(hit(full[i as int], fv));
                            assert(scan_hit(full, fv) == i as int);
                        }
                        let factor_out = ops.remove(i);
                        proof {
                            assert(views_of_seq(ops@) =~= full.remove(i as int));
                        }
                        let coefficient = Binary {
                            operator: BinaryOp::Mul,
                            operands: ops,
                        }.build();
                        return TermFactorExtractResult::Found { factor: factor_out, coefficient };
                    }
                    let dup = ops[i].duplicate();
                    proof {
                        lemma_size_list_element(full, i as int);
                        assert(size_exp(full[i as int]) <= size_list(full));
                        assert(size_exp(term@) == 1 + size_list(full));
                    }
                    let sub = term_factor_extract(dup, factor);
                    match sub {
                        TermFactorExtractResult::Found { factor: g, coefficient: c } => {
                            proof {
                                assert(extract_exp(full[i as int], fv) is Found);
                                assert(hit(full[i as int], fv));
                                lemma_scan_hit_at(full, fv, i as int);
                                assert(scan_hit(full, fv) == i as int);
                            }
                            let ghost cv = c@;
                            let _ = ops.remove(i);
                            ops.insert(i, c);
                            proof {
                                assert(views_of_seq(ops@) =~= full.update(i as int, cv));
                            }
                            let coefficient = Binary {
                                operator: BinaryOp::Mul,
                                operands: ops,
                            }.build();
                            return TermFactorExtractResult::Found { factor: g, coefficient };
                        }
                        TermFactorExtractResult::Missed { original: _ } => {
                            proof {
                                assert(extract_exp(full[i as int], fv) is Missed);
                                assert(!equiv(full[i as int], fv));
                                assert(!hit(full[i as int], fv));
                            }
                        }
                    }
                    i = i + 1;
                }
                proof {
                    lemma_scan_hit_at(full, fv, full.len() as int);
                    assert(scan_hit(full, fv) == full.len());
                }
                let original = Binary { operator: BinaryOp::Mul, operands: ops }.build();
                TermFactorExtractResult::Missed { original }
            } else if b.operator == BinaryOp::Pow {
                let ghost full = views_of_seq(b.operands@);
                proof {
                    assert(term@ == Exp::Binary(BinaryOp::Pow, full));
                    assert(term@->Binary_1 == full);
                }
                if b.operands.len() == 0 {
                    let original = Binary { operator: BinaryOp::Pow, operands: b.operands }.build();
                    return TermFactorExtractResult::Missed { original };
                }
                let matched = match factor {
                    Ast::Binary(fb) => {
                        proof {
                            assert(fv == Exp::Binary(fb.operator, views_of_seq(fb.operands@)));
                            assert(fv->Binary_1 == views_of_seq(fb.operands@));
                        }
                        if fb.operator == BinaryOp::Pow {
                            if fb.operands.len() > 0 {
                                let m = b.operands[0].structural_eq(&fb.operands[0]);
                                proof {
                                    assert(fv->Binary_1[0] == fb.operands@[0]@);
                                    assert(full[0] == b.operands@[0]@);
                                }
                                m
                            } else {
                                false
                            }
                        } else {
                            b.operands[0].structural_eq(factor)
                        }
                    }
                    other => b.operands[0].structural_eq(other),
                };
                proof {
                    if fv is Binary && fv->Binary_0 == BinaryOp::Pow {
                        assert(matched == (fv->Binary_1.len() > 0 && equiv(full[0], fv->Binary_1[0])));
                    } else {
                        assert(matched == equiv(full[0], fv));
                    }
                }
                if !matched {
                    let original = Binary { operator: BinaryOp::Pow, operands: b.operands }.build();
                    return TermFactorExtractResult::Missed { original };
                }
                let ghost rest0 = full.drop_first();
                let ghost lhs_ops = if rest0.len() == 0 {
                    seq![Exp::Num(1)]
                } else {
                    rest0
                };
                let ghost rhs_ops = if fv is Binary && fv->Binary_0 == BinaryOp::Pow {
                    fv->Binary_1.drop_first()
                } else {
                    seq![Exp::Num(1)]
                };
                let mut ops = b.operands;
                let base = ops.remove(0);
                proof {
                    assert(base@ == full[0]);
                    assert(views_of_seq(ops@) =~= rest0);
                }
                if ops.len() == 0 {
                    ops.push(Ast::Num(1));
                    proof {
                        assert(views_of_seq(ops@) =~= seq![Exp::Num(1)]);
                    }
                }
                proof {
                    assert(views_of_seq(ops@) =~= lhs_ops);
                }
                let lhs = Binary { operator: BinaryOp::Pow, operands: ops }.build();
                let ghost lhsv = lhs@;
                let rhs = match factor {
                    Ast::Binary(fb) => {
                        if fb.operator == BinaryOp::Pow {
                            let mut tail: Vec<Ast> = Vec::new();
                            let mut j: usize = 1;
                            while j < fb.operands.len()
                                invariant
                                    1 <= j <= fb.operands.len(),
                                    views_of_seq(tail@) =~= views_of_seq(
                                        fb.operands@,
                                    ).drop_first().subrange(0, j - 1),
                                decreases fb.operands.len() - j,
                            {
                                tail.push(fb.operands[j].duplicate());
                                j = j + 1;
                            }
                            proof {
                                assert(fv->Binary_1 == views_of_seq(fb.operands@));
                                assert(views_of_seq(tail@) =~= rhs_ops);
                            }
                            Binary { operator: BinaryOp::Pow, operands: tail }.build()
                        } else {
                            proof {
                                assert(build_exp(BinaryOp::Pow, rhs_ops) == Exp::Num(1));
                            }
                            Ast::Num(1)
                        }
                    }
                    _ => {
                        proof {
                            assert(build_exp(BinaryOp::Pow, rhs_ops) == Exp::Num(1));
                        }
                        Ast::Num(1)
                    }
                };
                let ghost rhsv = rhs@;
                proof {
                    assert(lhsv == build_exp(BinaryOp::Pow, lhs_ops));
                    assert(rhsv == build_exp(BinaryOp::Pow, rhs_ops));
                }
                let minus = Binary::new(BinaryOp::Mul).with(rhs).with(Ast::Num(-1)).build();
                let ghost minusv = minus@;
                proof {
                    assert(Seq::<Exp>::empty().push(rhsv).push(Exp::Num(-1)) =~= seq![
                        rhsv,
                        Exp::Num(-1),
                    ]);
                    assert(minusv == build_exp(BinaryOp::Mul, seq![rhsv, Exp::Num(-1)]));
                }
                let expo = Binary::new(BinaryOp::Add).with(lhs).with(minus).build();
                let ghost expov = expo@;
                proof {
                    assert(Seq::<Exp>::empty().push(lhsv).push(minusv) =~= seq![lhsv, minusv]);
                    assert(expov == build_exp(BinaryOp::Add, seq![lhsv, minusv]));
                }
                let coeff = Binary::new(BinaryOp::Pow).with(base.duplicate()).with(expo).build();
                let ghost coeffv = coeff@;
                proof {
                    assert(Seq::<Exp>::empty().push(full[0]).push(expov) =~= seq![full[0], expov]);
                    assert(coeffv == build_exp(BinaryOp::Pow, seq![full[0], expov]));
                }
                let coefficient = Simplifier::fold_sweep(coeff, FOLD_DEPTH);
                proof {
                    assert(coefficient@ == fold_all(FOLD_DEPTH as nat, coeffv));
                    assert(extract_exp(term@, fv) == (ExtractExp::Found {
                        factor: full[0],
                        coefficient: fold_all(FOLD_DEPTH as nat, coeffv),
                    }));
                }
                TermFactorExtractResult::Found { factor: base, coefficient }
            } else {
                let whole = Ast::Binary(b);
                let same = whole.structural_eq(factor);
                if same {
                    TermFactorExtractResult::Found { factor: whole, coefficient: Ast::Num(1) }
                } else {
                    TermFactorExtractResult::Missed { original: whole }
                }
            }
        }
        other => {
            let same = other.structural_eq(factor);
            if same {
                TermFactorExtractResult::Found { factor: other, coefficient: Ast::Num(1) }
            } else {
                TermFactorExtractResult::Missed { original: other }
            }
        }
    }
}

/// Terms on which factor enumeration and extraction agree: every power node
/// reachable along the enumeration spine has a non-binary base, so each
/// enumerated factor really divides the term.
pub open spec fn factor_friendly(t: Exp) -> bool
    decreases t,
{
    match t {
        Exp::Binary(BinaryOp::Mul, ops) => forall|i: int|
            0 <= i < ops.len() ==> factor_friendly(#[trigger] ops[i]),
        Exp::Binary(BinaryOp::Pow, ops) => ops.len() > 0 ==> !(ops[0] is Binary),
        _ => true,
    }
}

proof fn lemma_scan_hit_found(ops: Seq<Exp>, f: Exp, i: int)
    requires
        0 <= i < ops.len(),
        hit(ops[i], f),
    ensures
        0 <= scan_hit(ops, f) < ops.len(),
        hit(ops[scan_hit(ops, f)], f),
    decreases ops.len(),
{
    if !hit(ops[0], f) {
        lemma_scan_hit_found(ops.drop_first(), f, i - 1);
        assert(ops.drop_first()[scan_hit(ops.drop_first(), f)] == ops[scan_hit(ops, f)]);
    }
}

proof fn lemma_factors_list_member(ops: Seq<Exp>, f: Exp)
    requires
        factors_list(ops).contains(f),
    ensures
        exists|i: int| 0 <= i < ops.len() && factors_exp(#[trigger] ops[i]).contains(f),
    decreases ops.len(),
{
    if ops.len() > 0 {
        if factors_exp(ops[0]).contains(f) {
            assert(0 <= 0 < ops.len() && factors_exp(ops[0]).contains(f));
        } else {
            let k = choose|k: int| 0 <= k < factors_list(ops).len() && factors_list(ops)[k] == f;
            assert(k >= factors_exp(ops[0]).len()) by {
                if k < factors_exp(ops[0]).len() {
                    assert(factors_exp(ops[0])[k] == f);
                }
            }
            assert(factors_list(ops.drop_first())[k - factors_exp(ops[0]).len() as int] == f);
            lemma_factors_list_member(ops.drop_first(), f);
            let i = choose|i: int|
                0 <= i < ops.drop_first().len() && factors_exp(
                    #[trigger] ops.drop_first()[i],
                ).contains(f);
            assert(ops.drop_first()[i] == ops[i + 1]);
            assert(factors_exp(ops[i + 1]).contains(f));
        }
    }
}

/// Every factor that `term_factors` yields divides the term: on a
/// factor-friendly term, extraction of an enumerated factor succeeds.
pub proof fn lemma_factors_extract(t: Exp, f: Exp)
    requires
        factor_friendly(t),
        factors_exp(t).contains(f),
    ensures
        extract_exp(t, f) is Found,
    decreases t,
{
    match t {
        Exp::Binary(op, ops) => {
            if op == BinaryOp::Mul {
                lemma_factors_list_member(ops, f);
                let i = choose|i: int|
                    0 <= i < ops.len() && factors_exp(#[trigger] ops[i]).contains(f);
                lemma_factors_extract(ops[i], f);
                assert(hit(ops[i], f));
                lemma_scan_hit_found(ops, f, i);
                let j = scan_hit(ops, f);
                assert(hit(ops[j], f));
            } else if op == BinaryOp::Pow {
                assert(ops.len() > 0);
                assert(!(ops[0] is Binary));
                assert(factors_exp(ops[0]) =~= seq![ops[0]]);
                assert(f == ops[0]);
                crate::eq::lemma_equiv_reflexive(ops[0]);
                assert(!(f is Binary && f->Binary_0 == BinaryOp::Pow));
            } else {
                assert(f == t);
                crate::eq::lemma_equiv_reflexive(t);
            }
        }
        other => {
            assert(f == t);
            crate::eq::lemma_equiv_reflexive(t);
        }
    }
}

/// The factor of an extraction outcome (the original tree when none).
pub open spec fn extracted_factor(r: ExtractExp) -> Exp {
    match r {
        ExtractExp::Found { factor, coefficient } => factor,
        ExtractExp::Missed { original } => original,
    }
}

/// The coefficient of an extraction outcome (the original tree when none).
pub open spec fn extracted_coefficient(r: ExtractExp) -> Exp {
    match r {
        ExtractExp::Found { factor, coefficient } => coefficient,
        ExtractExp::Missed { original } => original,
    }
}

} // verus!
