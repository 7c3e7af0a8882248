//! Numeric constant folding for the binary operators.
//!
//! Folding uses checked signed 64-bit arithmetic throughout: a fold step is
//! taken only when its exact result fits in the type, and a node whose
//! left-to-right accumulation would overflow is left unchanged.  This is the
//! one overflow policy of the crate and it applies to every numeric fold.

use vstd::prelude::*;

use super::Simplifier;
use crate::ast::binary::{build_exp, identity_int, Binary, BinaryOp};
use crate::ast::unary::Unary;
use crate::ast::{lemma_views_of_seq_index, lemma_views_of_seq_len, views_of_seq, Ast, Exp};

verus! {

broadcast use {lemma_views_of_seq_len, lemma_views_of_seq_index};

/// Whether an integer fits in a signed 64-bit word.
pub open spec fn in_i64(x: int) -> bool {
    i64::MIN <= x <= i64::MAX
}

/// Checked power: `b` to the `e`, or `None` as soon as one multiplication
/// leaves the 64-bit range.
pub open spec fn pow_chain(b: int, e: nat) -> Option<int>
    decreases e,
{
    if e == 0 {
        Option::Some(1)
    } else {
        match pow_chain(b, (e - 1) as nat) {
            Option::Some(p) => if in_i64(p * b) {
                Option::Some(p * b)
            } else {
                Option::None
            },
            Option::None => Option::None,
        }
    }
}

/// One step of the right-to-left power fold: `cur ^ acc`.
///
/// Two literals fold to a literal when the exponent is a valid `u32` and the
/// power fits; a literal exponent `0` or `1` short-circuits before a literal
/// base `0` or `1` does, which settles `0^0` as `1`.
pub open spec fn pow_step(cur: Exp, acc: Exp) -> Exp {
    if cur is Num && acc is Num {
        let b = cur->Num_0;
        let e = acc->Num_0;
        if 0 <= e <= u32::MAX as int {
            match pow_chain(b, e as nat) {
                Option::Some(v) => Exp::Num(v),
                Option::None => Exp::Binary(BinaryOp::Pow, seq![cur, acc]),
            }
        } else {
            Exp::Binary(BinaryOp::Pow, seq![cur, acc])
        }
    } else if acc == Exp::Num(0) {
        Exp::Num(1)
    } else if acc == Exp::Num(1) {
        cur
    } else if cur == Exp::Num(0) {
        Exp::Num(0)
    } else if cur == Exp::Num(1) {
        Exp::Num(1)
    } else {
        Exp::Binary(BinaryOp::Pow, seq![cur, acc])
    }
}

/// Right-to-left fold of a power tower into `acc`.
pub open spec fn pow_fold(ops: Seq<Exp>, acc: Exp) -> Exp
    decreases ops.len(),
{
    if ops.len() == 0 {
        acc
    } else {
        pow_fold(ops.drop_last(), pow_step(ops.last(), acc))
    }
}

/// Checked left-to-right accumulation of the literal operands: their sum
/// (`mul` false) or product (`mul` true) started at `acc`, or `None` as soon
/// as a step leaves the 64-bit range.
pub open spec fn acc_literals(ops: Seq<Exp>, acc: int, mul: bool) -> Option<int>
    decreases ops.len(),
{
    if ops.len() == 0 {
        Option::Some(acc)
    } else {
        match ops[0] {
            Exp::Num(n) => {
                let next = if mul {
                    acc * n
                } else {
                    acc + n
                };
                if in_i64(next) {
                    acc_literals(ops.drop_first(), next, mul)
                } else {
                    Option::None
                }
            }
            _ => acc_literals(ops.drop_first(), acc, mul),
        }
    }
}

/// The operands that are not literal numbers, in order.
pub open spec fn non_literals(ops: Seq<Exp>) -> Seq<Exp>
    decreases ops.len(),
{
    if ops.len() == 0 {
        Seq::empty()
    } else if ops[0] is Num {
        non_literals(ops.drop_first())
    } else {
        seq![ops[0]] + non_literals(ops.drop_first())
    }
}

/// Root-level numeric fold of one binary node.
///
/// `Pow` folds its tower right to left through [`pow_step`].  `Add` and `Mul`
/// combine all literal operands into one constant, which is prepended to the
/// remaining operands when it differs from the identity; a zero product
/// absorbs the whole node.  A node whose accumulation overflows is returned
/// unchanged.
pub open spec fn binary_fold_root(t: Exp) -> Exp {
    match t {
        Exp::Binary(op, ops) => {
            if op == BinaryOp::Pow {
                pow_fold(ops, Exp::Num(1))
            } else {
                match acc_literals(ops, identity_int(op), op == BinaryOp::Mul) {
                    Option::Some(v) => if op == BinaryOp::Mul && v == 0 {
                        Exp::Num(0)
                    } else {
                        let keep = non_literals(ops);
                        build_exp(
                            op,
                            if v != identity_int(op) {
                                seq![Exp::Num(v)] + keep
                            } else {
                                keep
                            },
                        )
                    },
                    Option::None => t,
                }
            }
        }
        _ => t,
    }
}

proof fn lemma_pow_chain_zero(e: nat)
    ensures
        pow_chain(0, e) == Option::Some(if e == 0 { 1int } else { 0int }),
    decreases e,
{
    if e > 0 {
        lemma_pow_chain_zero((e - 1) as nat);
    }
}

proof fn lemma_pow_chain_one(e: nat)
    ensures
        pow_chain(1, e) == Option::Some(1int),
    decreases e,
{
    if e > 0 {
        lemma_pow_chain_one((e - 1) as nat);
    }
}

proof fn lemma_pow_chain_neg_one(e: nat)
    ensures
        pow_chain(-1, e) == Option::Some(if e % 2 == 0 { 1int } else { -1int }),
    decreases e,
{
    if e > 0 {
        lemma_pow_chain_neg_one((e - 1) as nat);
    }
}

proof fn lemma_pow_chain_none_mono(b: int, i: nat, e: nat)
    requires
        i <= e,
        pow_chain(b, i) is None,
    ensures
        pow_chain(b, e) is None,
    decreases e,
{
    if e > i {
        lemma_pow_chain_none_mono(b, i, (e - 1) as nat);
    }
}

impl Simplifier {
    /// Checked integer power following [`pow_chain`].
    #[verifier::loop_isolation(false)]
    fn pow_exec(b: i64, e: u32) -> (r: Option<i64>)
        ensures
            match r {
                Option::Some(v) => pow_chain(b as int, e as nat) == Option::Some(v as int),
                Option::None => pow_chain(b as int, e as nat) is None,
            },
    {
        if b == 0 {
            proof {
                lemma_pow_chain_zero(e as nat);
            }
            if e == 0 {
                Option::Some(1)
            } else {
                Option::Some(0)
            }
        } else if b == 1 {
            proof {
                lemma_pow_chain_one(e as nat);
            }
            Option::Some(1)
        } else if b == -1 {
            proof {
                lemma_pow_chain_neg_one(e as nat);
            }
            if e % 2 == 0 {
                Option::Some(1)
            } else {
                Option::Some(-1)
            }
        } else {
            let mut acc: i64 = 1;
            let mut i: u32 = 0;
            while i < e
                invariant
                    0 <= i <= e,
                    pow_chain(b as int, i as nat) == Option::Some(acc as int),
                decreases e - i,
            {
                proof {
                    assert((-0x4000_0000_0000_0000_0000_0000_0000_0000int) <= (acc as int) * (
                    b as int) <= 0x4000_0000_0000_0000_0000_0000_0000_0000int)
                        by (nonlinear_arith)
                        requires
                            -0x8000_0000_0000_0000 <= acc as int <= 0x7fff_ffff_ffff_ffff,
                            -0x8000_0000_0000_0000 <= b as int <= 0x7fff_ffff_ffff_ffff,
                    ;
                }
                let wide: i128 = (acc as i128) * (b as i128);
                if wide < i64::MIN as i128 || wide > i64::MAX as i128 {
                    proof {
                        lemma_pow_chain_none_mono(b as int, (i + 1) as nat, e as nat);
                    }
                    return Option::None;
                }
                acc = wide as i64;
                i = i + 1;
            }
            Option::Some(acc)
        }
    }

    /// One step of the right-to-left power fold; see [`pow_step`].
    fn pow_step_exec(cur: Ast, acc: Ast) -> (r: Ast)
        ensures
            r@ == pow_step(cur@, acc@),
    {
        let fold_literals = match (&cur, &acc) {
            (Ast::Num(_), Ast::Num(_)) => true,
            _ => false,
        };
        if fold_literals {
            let b: i64 = match &cur {
                Ast::Num(v) => *v,
                _ => 0,
            };
            let e: i64 = match &acc {
                Ast::Num(v) => *v,
                _ => 0,
            };
            if 0 <= e && e <= u32::MAX as i64 {
                match Self::pow_exec(b, e as u32) {
                    Option::Some(v) => Ast::Num(v),
                    Option::None => Self::pow_node(cur, acc),
                }
            } else {
                Self::pow_node(cur, acc)
            }
        } else {
            match &acc {
                Ast::Num(0) => Ast::Num(1),
                Ast::Num(1) => cur,
                _ => match &cur {
                    Ast::Num(0) => Ast::Num(0),
                    Ast::Num(1) => Ast::Num(1),
                    _ => Self::pow_node(cur, acc),
                },
            }
        }
    }

    /// A fresh two-operand power node `lhs ^ rhs`.
    fn pow_node(lhs: Ast, rhs: Ast) -> (r: Ast)
        ensures
            r@ == Exp::Binary(BinaryOp::Pow, seq![lhs@, rhs@]),
    {
        let mut ops: Vec<Ast> = Vec::new();
        ops.push(lhs);
        ops.push(rhs);
        proof {
            assert(views_of_seq(ops@) =~= seq![lhs@, rhs@]);
        }
        Ast::Binary(Binary { operator: BinaryOp::Pow, operands: ops })
    }

    /// Fold the numeric work of one binary node; see [`binary_fold_root`].
    ///
    /// Examples: `1+a+2+3` becomes `6+a`, `0+a` becomes `a`, `1*a*2*3`
    /// becomes `6*a`, `0*a` becomes `0`, `1^a^2^3` becomes `1`, `a^2^3`
    /// becomes `a^8`, `a^0` becomes `1` and `a^1` becomes `a`.
    #[verifier::rlimit(60)]
    #[verifier::loop_isolation(false)]
    pub fn binary_num_ops(ast: Ast) -> (r: Ast)
        ensures
            r@ == binary_fold_root(ast@),
    {
        match ast {
            Ast::Binary(b) => {
                let ghost full = views_of_seq(b.operands@);
                proof {
                    assert(Ast::Binary(b)@ == Exp::Binary(b.operator, full));
                }
                if b.operator == BinaryOp::Pow {
                    let mut rest = b.operands;
                    let mut acc = Ast::Num(1);
                    while rest.len() > 0
                        invariant
                            pow_fold(full, Exp::Num(1)) == pow_fold(views_of_seq(rest@), acc@),
                        decreases rest.len(),
                    {
                        let ghost prev = views_of_seq(rest@);
                        let cur = rest.pop().unwrap();
                        proof {
                            assert(prev.drop_last() =~= views_of_seq(rest@));
                            assert(prev.last() == cur@);
                        }
                        acc = Self::pow_step_exec(cur, acc);
                    }
                    proof {
                        assert(views_of_seq(rest@) =~= Seq::<Exp>::empty());
                    }
                    acc
                } else {
                    let is_mul = b.operator == BinaryOp::Mul;
                    let init: i64 = if is_mul {
                        1
                    } else {
                        0
                    };
                    let ghost gid = identity_int(b.operator);
                    let mut acc: i64 = init;
                    let mut overflow = false;
                    let mut i: usize = 0;
                    proof {
                        assert(gid == init as int);
                        assert(full.skip(0) =~= full);
                    }
                    while i < b.operands.len() && !overflow
                        invariant
                            0 <= i <= b.operands.len(),
                            !overflow ==> acc_literals(full, gid, is_mul) == acc_literals(
                                full.skip(i as int),
                                acc as int,
                                is_mul,
                            ),
                            overflow ==> acc_literals(full, gid, is_mul) is None,
                        decreases b.operands.len() - i + (if overflow { 0int } else { 1int }),
                    {
                        proof {
                            assert(full.skip(i as int).drop_first() =~= full.skip(i as int + 1));
                            assert(full.skip(i as int)[0] == full[i as int]);
                            assert(full[i as int] == views_of_seq(b.operands@)[i as int]);
                        }
                        match &b.operands[i] {
                            Ast::Num(n) => {
                                proof {
                                    assert((-0x4000_0000_0000_0000_0000_0000_0000_0000int) <= (
                                    acc as int) * (*n as int)
                                        <= 0x4000_0000_0000_0000_0000_0000_0000_0000int)
                                        by (nonlinear_arith)
                                        requires
                                            -0x8000_0000_0000_0000 <= acc as int
                                                <= 0x7fff_ffff_ffff_ffff,
                                            -0x8000_0000_0000_0000 <= *n as int
                                                <= 0x7fff_ffff_ffff_ffff,
                                    ;
                                }
                                let wide: i128 = if is_mul {
                                    (acc as i128) * (*n as i128)
                                } else {
                                    (acc as i128) + (*n as i128)
                                };
                                if wide < i64::MIN as i128 || wide > i64::MAX as i128 {
                                    overflow = true;
                                } else {
                                    acc = wide as i64;
                                }
                            }
                            _ => {}
                        }
                        if !overflow {
                            i = i + 1;
                        }
                    }
                    if overflow {
                        return Ast::Binary(b);
                    }
                    proof {
                        assert(full.skip(i as int) =~= Seq::<Exp>::empty());
                        assert(acc_literals(full, gid, is_mul) == Option::<int>::Some(acc as int));
                    }
                    if is_mul && acc == 0 {
                        return Ast::Num(0);
                    }
                    let mut rest = b.operands;
                    let mut keep: Vec<Ast> = Vec::new();
                    let ghost mut seen: int = 0;
                    while rest.len() > 0
                        invariant
                            views_of_seq(rest@) =~= full.skip(seen),
                            0 <= seen <= full.len(),
                            non_literals(full) =~= views_of_seq(keep@) + non_literals(
                                full.skip(seen),
                            ),
                        decreases rest.len(),
                    {
                        proof {
                            assert(full.skip(seen).drop_first() =~= full.skip(seen + 1));
                        }
                        let x = rest.remove(0);
                        match x {
                            Ast::Num(_) => {}
                            other => {
                                keep.push(other);
                            }
                        }
                        proof {
                            seen = seen + 1;
                        }
                    }
                    proof {
                        assert(non_literals(full) =~= views_of_seq(keep@));
                    }
                    let mut out = Binary::new(b.operator);
                    if acc != init {
                        out.push(Ast::Num(acc));
                    }
                    let ghost pre = views_of_seq(out.operands@);
                    let ghost keepv = views_of_seq(keep@);
                    let mut tail = keep;
                    out.operands.append(&mut tail);
                    proof {
                        assert(views_of_seq(out.operands@) =~= pre + keepv);
                    }
                    out.build()
                }
            }
            other => other,
        }
    }
}

/// Bottom-up numeric-fold sweep with a depth budget: children first, then the
/// root, leaving subtrees beyond the budget untouched.
pub open spec fn fold_all(limit: nat, t: Exp) -> Exp
    decreases limit, 1int, 0int,
{
    if limit == 0 {
        t
    } else {
        binary_fold_root(
            match t {
                Exp::Binary(op, ops) => Exp::Binary(op, fold_seq(limit, ops)),
                Exp::Unary(op, x) => Exp::Unary(op, Box::new(fold_all((limit - 1) as nat, *x))),
                leaf => leaf,
            },
        )
    }
}

/// Elementwise [`fold_all`] at one less depth.
pub open spec fn fold_seq(limit: nat, s: Seq<Exp>) -> Seq<Exp>
    decreases limit, 0int, s.len(),
{
    if s.len() == 0 {
        Seq::empty()
    } else if limit == 0 {
        s
    } else {
        seq![fold_all((limit - 1) as nat, s[0])] + fold_seq(limit, s.drop_first())
    }
}

impl Simplifier {
    /// Apply the numeric fold bottom-up over the whole tree, to `limit` depth.
    #[verifier::rlimit(60)]
    #[verifier::loop_isolation(false)]
    pub(crate) fn fold_sweep(ast: Ast, limit: usize) -> (r: Ast)
        ensures
            r@ == fold_all(limit as nat, ast@),
        decreases limit,
    {
        if limit == 0 {
            return ast;
        }
        let stepped = match ast {
            Ast::Binary(b) => {
                let ghost full = views_of_seq(b.operands@);
                let mut rest = b.operands;
                let mut out: Vec<Ast> = Vec::new();
                let ghost mut seen: int = 0;
                proof {
                    assert(full.skip(0) =~= full);
                }
                while rest.len() > 0
                    invariant
                        views_of_seq(rest@) =~= full.skip(seen),
                        0 <= seen <= full.len(),
                        fold_seq(limit as nat, full) =~= views_of_seq(out@) + fold_seq(
                            limit as nat,
                            full.skip(seen),
                        ),
                    decreases rest.len(),
                {
                    proof {
                        assert(full.skip(seen).drop_first() =~= full.skip(seen + 1));
                    }
                    let x = rest.remove(0);
                    out.push(Self::fold_sweep(x, limit - 1));
                    proof {
                        seen = seen + 1;
                    }
                }
                proof {
                    assert(fold_seq(limit as nat, full) =~= views_of_seq(out@));
                }
                Ast::Binary(Binary { operator: b.operator, operands: out })
            }
            Ast::Unary(u) => {
                let Unary { operator, operand } = u;
                let ghost ov = operand@;
                let inner = Self::fold_sweep(*operand, limit - 1);
                let r = Ast::Unary(Unary { operator, operand: Box::new(inner) });
                proof {
                    assert(r@ == Exp::Unary(operator, Box::new(fold_all((limit - 1) as nat, ov))));
                }
                r
            }
            leaf => leaf,
        };
        Self::binary_num_ops(stepped)
    }
}

} // verus!
