//! Structural equivalence: equality of trees up to commutative reordering of
//! `Add` and `Mul` operands.

use vstd::prelude::*;

use crate::ast::binary::BinaryOp;
use crate::ast::{lemma_views_of_seq_index, lemma_views_of_seq_len, view_of, views_of_seq, Ast, Exp};

verus! {

broadcast use {lemma_views_of_seq_len, lemma_views_of_seq_index};

/// Structural equivalence of two expression models.
///
/// Numbers match on value, variables on name.  `Pow` nodes match positionally
/// and must have equal arity.  `Add` and `Mul` nodes match when every operand
/// of the left side has some equivalent counterpart among the right side's
/// operands: an order-independent, possibly many-to-one matching, weaker than
/// multiset equality.
pub open spec fn equiv(a: Exp, b: Exp) -> bool
    decreases a, 0int,
{
    match (a, b) {
        (Exp::Num(x), Exp::Num(y)) => x == y,
        (Exp::Var(x), Exp::Var(y)) => x == y,
        (Exp::Binary(opa, xs), Exp::Binary(opb, ys)) => {
            if opa != opb {
                false
            } else if opa == BinaryOp::Pow {
                xs.len() == ys.len() && (forall|i: int|
                    0 <= i < xs.len() ==> equiv(#[trigger] xs[i], ys[i]))
            } else {
                forall|i: int| 0 <= i < xs.len() ==> has_match(#[trigger] xs[i], ys)
            }
        }
        (Exp::Unary(opa, x), Exp::Unary(opb, y)) => opa == opb && equiv(*x, *y),
        _ => false,
    }
}

/// Whether some element of `ys` is equivalent to `e`.
pub open spec fn has_match(e: Exp, ys: Seq<Exp>) -> bool
    decreases e, 1int,
{
    exists|j: int| 0 <= j < ys.len() && equiv(e, #[trigger] ys[j])
}

/// Equivalence is reflexive: every tree is equivalent to itself.
pub proof fn lemma_equiv_reflexive(x: Exp)
    ensures
        equiv(x, x),
    decreases x,
{
    match x {
        Exp::Binary(op, xs) => {
            assert forall|i: int| 0 <= i < xs.len() implies equiv(#[trigger] xs[i], xs[i]) by {
                assert(decreases_to!(x => xs));
                assert(decreases_to!(xs => xs[i]));
                lemma_equiv_reflexive(xs[i]);
            }
            if op != BinaryOp::Pow {
                assert forall|i: int| 0 <= i < xs.len() implies has_match(#[trigger] xs[i], xs) by {
                    assert(equiv(xs[i], xs[i]));
                }
            }
        }
        Exp::Unary(op, y) => {
            lemma_equiv_reflexive(*y);
        }
        _ => {}
    }
}


/// For `Pow`, equivalence requires an exact positional, arity-equal match.
pub proof fn lemma_equiv_pow_positional(xs: Seq<Exp>, ys: Seq<Exp>)
    ensures
        equiv(Exp::Binary(BinaryOp::Pow, xs), Exp::Binary(BinaryOp::Pow, ys)) == (xs.len()
            == ys.len() && (forall|i: int| 0 <= i < xs.len() ==> equiv(#[trigger] xs[i], ys[i]))),
{
}

proof fn lemma_has_match_multiset(e: Exp, s1: Seq<Exp>, s2: Seq<Exp>)
    requires
        s1.to_multiset() == s2.to_multiset(),
    ensures
        has_match(e, s1) == has_match(e, s2),
{
    if has_match(e, s1) {
        let j = choose|j: int| 0 <= j < s1.len() && equiv(e, #[trigger] s1[j]);
        assert(s1.contains(s1[j]));
        s1.to_multiset_ensures();
        s2.to_multiset_ensures();
        assert(s2.to_multiset().count(s1[j]) > 0);
        assert(s2.contains(s1[j]));
        let j2 = choose|j2: int| 0 <= j2 < s2.len() && s2[j2] == s1[j];
        assert(equiv(e, s2[j2]));
        assert(has_match(e, s2));
    }
    if has_match(e, s2) {
        let j = choose|j: int| 0 <= j < s2.len() && equiv(e, #[trigger] s2[j]);
        assert(s2.contains(s2[j]));
        s1.to_multiset_ensures();
        s2.to_multiset_ensures();
        assert(s1.to_multiset().count(s2[j]) > 0);
        assert(s1.contains(s2[j]));
        let j2 = choose|j2: int| 0 <= j2 < s1.len() && s1[j2] == s2[j];
        assert(equiv(e, s1[j2]));
        assert(has_match(e, s1));
    }
}

proof fn lemma_all_match_multiset(s1: Seq<Exp>, s2: Seq<Exp>, ys: Seq<Exp>)
    requires
        s1.to_multiset() == s2.to_multiset(),
        forall|i: int| 0 <= i < s1.len() ==> has_match(#[trigger] s1[i], ys),
    ensures
        forall|i: int| 0 <= i < s2.len() ==> has_match(#[trigger] s2[i], ys),
{
    assert forall|i: int| 0 <= i < s2.len() implies has_match(#[trigger] s2[i], ys) by {
        assert(s2.contains(s2[i]));
        s1.to_multiset_ensures();
        s2.to_multiset_ensures();
        assert(s1.to_multiset().count(s2[i]) > 0);
        assert(s1.contains(s2[i]));
        let j = choose|j: int| 0 <= j < s1.len() && s1[j] == s2[i];
        assert(has_match(s1[j], ys));
    }
}

/// For `Add` and `Mul`, equivalence is invariant under any permutation of
/// the operand list on either side; two operand lists with equal multisets
/// are interchangeable.
pub proof fn lemma_equiv_operands_permutation(op: BinaryOp, a: Exp, s1: Seq<Exp>, s2: Seq<Exp>)
    requires
        op != BinaryOp::Pow,
        s1.to_multiset() == s2.to_multiset(),
    ensures
        equiv(a, Exp::Binary(op, s1)) == equiv(a, Exp::Binary(op, s2)),
        equiv(Exp::Binary(op, s1), a) == equiv(Exp::Binary(op, s2), a),
{
    s1.to_multiset_ensures();
    s2.to_multiset_ensures();
    assert(s1.len() == s2.len());
    match a {
        Exp::Binary(opa, xs) => {
            if opa == op {
                assert(a == Exp::Binary(opa, xs));
                assert(a->Binary_1 == xs);
                assert(Exp::Binary(op, s1)->Binary_1 == s1);
                assert(Exp::Binary(op, s2)->Binary_1 == s2);
                assert forall|i: int| 0 <= i < xs.len() implies has_match(#[trigger] xs[i], s1)
                    == has_match(xs[i], s2) by {
                    lemma_has_match_multiset(xs[i], s1, s2);
                }
                if equiv(Exp::Binary(op, s1), a) {
                    assert(forall|i: int| 0 <= i < s1.len() ==> has_match(#[trigger] s1[i], xs));
                    lemma_all_match_multiset(s1, s2, xs);
                    assert(equiv(Exp::Binary(op, s2), a));
                }
                if equiv(Exp::Binary(op, s2), a) {
                    assert(forall|i: int| 0 <= i < s2.len() ==> has_match(#[trigger] s2[i], xs));
                    lemma_all_match_multiset(s2, s1, xs);
                    assert(equiv(Exp::Binary(op, s1), a));
                }
            }
        }
        _ => {}
    }
}

impl Ast {
    /// Structural equivalence test; see [`equiv`] for the exact relation.
    #[verifier::loop_isolation(false)]
    pub fn structural_eq(&self, other: &Ast) -> (r: bool)
        ensures
            r == equiv(self@, other@),
        decreases self,
    {
        match (self, other) {
            (Ast::Num(x), Ast::Num(y)) => x == y,
            (Ast::Var(x), Ast::Var(y)) => *x == *y,
            (Ast::Binary(a), Ast::Binary(b)) => {
                let ghost xs = views_of_seq(a.operands@);
                let ghost ys = views_of_seq(b.operands@);
                proof {
                    assert(self@ == Exp::Binary(a.operator, xs));
                    assert(other@ == Exp::Binary(b.operator, ys));
                    assert(self@->Binary_1 == xs);
                    assert(other@->Binary_1 == ys);
                    assert(self@->Binary_0 == a.operator);
                    assert(other@->Binary_0 == b.operator);
                }
                if !(a.operator == b.operator) {
                    false
                } else if a.operator == BinaryOp::Pow {
                    if a.operands.len() != b.operands.len() {
                        return false;
                    }
                    let mut i: usize = 0;
                    while i < a.operands.len()
                        invariant
                            0 <= i <= a.operands.len(),
                            forall|k: int| 0 <= k < i ==> equiv(#[trigger] xs[k], ys[k]),
                        decreases a.operands.len() - i,
                    {
                        proof {
                            assert(decreases_to!(*self => self->Binary_0));
                            assert(decreases_to!(self->Binary_0 => self->Binary_0.operands));
                            assert(decreases_to!(self->Binary_0.operands
                                => self->Binary_0.operands@));
                            assert(decreases_to!(self->Binary_0.operands@
                                => self->Binary_0.operands@[i as int]));
                            assert(self->Binary_0.operands@[i as int] == a.operands@[i as int]);
                        }
                        let same = a.operands[i].structural_eq(&b.operands[i]);
                        proof {
                            assert(xs[i as int] == view_of(a.operands@[i as int]));
                            assert(ys[i as int] == view_of(b.operands@[i as int]));
                        }
                        if !same {
                            return false;
                        }
                        i = i + 1;
                    }
                    true
                } else {
                    let mut i: usize = 0;
                    while i < a.operands.len()
                        invariant
                            0 <= i <= a.operands.len(),
                            forall|k: int| 0 <= k < i ==> has_match(#[trigger] xs[k], ys),
                        decreases a.operands.len() - i,
                    {
                        let mut j: usize = 0;
                        let mut found = false;
                        while j < b.operands.len()
                            invariant
                                0 <= j <= b.operands.len(),
                                !found ==> forall|l: int|
                                    0 <= l < j ==> !equiv(xs[i as int], #[trigger] ys[l]),
                                found ==> has_match(xs[i as int], ys),
                            decreases b.operands.len() - j,
                        {
                            proof {
                                assert(decreases_to!(*self => self->Binary_0));
                                assert(decreases_to!(self->Binary_0 => self->Binary_0.operands));
                                assert(decreases_to!(self->Binary_0.operands
                                    => self->Binary_0.operands@));
                                assert(decreases_to!(self->Binary_0.operands@
                                    => self->Binary_0.operands@[i as int]));
                                assert(self->Binary_0.operands@[i as int] == a.operands@[i as int]);
                            }
                            if !found && a.operands[i].structural_eq(&b.operands[j]) {
                                found = true;
                                proof {
                                    assert(xs[i as int] == view_of(a.operands@[i as int]));
                                    assert(ys[j as int] == view_of(b.operands@[j as int]));
                                    assert(equiv(xs[i as int], ys[j as int]));
                                    assert(has_match(xs[i as int], ys));
                                }
                            }
                            j = j + 1;
                        }
                        if !found {
                            proof {
                                assert(!has_match(xs[i as int], ys)) by {
                                    if has_match(xs[i as int], ys) {
                                        let l = choose|l: int|
                                            0 <= l < ys.len() && equiv(xs[i as int], ys[l]);
                                        assert(!equiv(xs[i as int], ys[l]));
                                    }
                                }
                                assert(!equiv(self@, other@)) by {
                                    if equiv(self@, other@) {
                                        assert(0 <= i < xs.len());
                                        assert(has_match(xs[i as int], ys));
                                    }
                                }
                            }
                            return false;
                        }
                        i = i + 1;
                    }
                    proof {
                        assert(forall|k: int| 0 <= k < xs.len() ==> has_match(#[trigger] xs[k], ys));
                        assert(equiv(self@, other@));
                    }
                    true
                }
            }
            (Ast::Unary(a), Ast::Unary(b)) => {
                let r = a.operator == b.operator && a.operand.structural_eq(&b.operand);
                proof {
                    assert(self@ == Exp::Unary(a.operator, Box::new(view_of(*a.operand))));
                    assert(other@ == Exp::Unary(b.operator, Box::new(view_of(*b.operand))));
                    assert(self@ is Unary);
                    assert(self@->Unary_0 == a.operator);
                    assert(*self@->Unary_1 == a.operand@);
                    assert(*other@->Unary_1 == b.operand@);
                }
                r
            }
            _ => false,
        }
    }
}

} // verus!
