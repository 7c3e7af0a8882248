//! The expression tree: numbers, variables, n-ary binary nodes and unary
//! nodes, together with the ghost model [`Exp`] that all contracts speak of.

use vstd::prelude::*;

pub mod binary;
pub mod unary;

use binary::{Binary, BinaryOp};
use unary::{Unary, UnaryOp};

verus! {

/// Ghost model of an expression tree.
///
/// Numbers widen to `int`, variable names to sequences of characters, and an
/// n-ary node carries the sequence of models of its operands.
#[verifier::ext_equal]
pub enum Exp {
    Num(int),
    Var(Seq<char>),
    Binary(BinaryOp, Seq<Exp>),
    Unary(UnaryOp, Box<Exp>),
}

/// An expression tree node.
///
/// A `Binary` node is n-ary: for `Add` and `Mul` the operand order carries no
/// algebraic meaning, while a `Pow` operand list is a right-associative
/// power tower (`[x, y, z]` denotes `x ^ (y ^ z)`).
#[derive(Debug, PartialEq, Eq)]
pub enum Ast {
    Num(i64),
    Var(String),
    Binary(Binary),
    Unary(Unary),
}

/// Ghost model of a tree node.
pub open spec fn view_of(a: Ast) -> Exp
    decreases a,
{
    match a {
        Ast::Num(n) => Exp::Num(n as int),
        Ast::Var(s) => Exp::Var(s@),
        Ast::Binary(b) => Exp::Binary(b.operator, views_of_seq(b.operands@)),
        Ast::Unary(u) => Exp::Unary(u.operator, Box::new(view_of(*u.operand))),
    }
}

/// Ghost models of a sequence of nodes, elementwise.
pub open spec fn views_of_seq(s: Seq<Ast>) -> Seq<Exp>
    decreases s,
{
    if s.len() == 0 {
        Seq::empty()
    } else {
        seq![view_of(s[0])] + views_of_seq(s.drop_first())
    }
}

pub broadcast proof fn lemma_views_of_seq_len(s: Seq<Ast>)
    ensures
        (#[trigger] views_of_seq(s)).len() == s.len(),
    decreases s,
{
    if s.len() > 0 {
        lemma_views_of_seq_len(s.drop_first());
    }
}

pub broadcast proof fn lemma_views_of_seq_index(s: Seq<Ast>, i: int)
    requires
        0 <= i < s.len(),
    ensures
        #[trigger] views_of_seq(s)[i] == view_of(s[i]),
    decreases s,
{
    lemma_views_of_seq_len(s);
    if i > 0 {
        lemma_views_of_seq_index(s.drop_first(), i - 1);
    }
}

impl View for Ast {
    type V = Exp;

    open spec fn view(&self) -> Exp {
        view_of(*self)
    }
}

impl Ast {
    /// Literal number node.
    pub fn num(n: i64) -> (r: Ast)
        ensures
            r@ == Exp::Num(n as int),
    {
        Ast::Num(n)
    }

    /// Variable node; two variables are equal exactly when their names are.
    pub fn var(name: &str) -> (r: Ast)
        ensures
            r@ == Exp::Var(name@),
    {
        Ast::Var(name.to_owned())
    }

    /// Structural copy of the tree.
    #[verifier::loop_isolation(false)]
    pub fn duplicate(&self) -> (r: Ast)
        ensures
            r@ == self@,
        decreases self,
    {
        proof {
            broadcast use {lemma_views_of_seq_len, lemma_views_of_seq_index};
        }
        match self {
            Ast::Num(n) => Ast::Num(*n),
            Ast::Var(s) => Ast::Var(s.clone()),
            Ast::Binary(b) => {
                let mut ops: Vec<Ast> = Vec::new();
                let mut i: usize = 0;
                while i < b.operands.len()
                    invariant
                        0 <= i <= b.operands.len(),
                        views_of_seq(ops@) =~= views_of_seq(b.operands@).subrange(0, i as int),
                    decreases b.operands.len() - i,
                {
                    proof {
                        assert(decreases_to!(*self => self->Binary_0));
                        assert(decreases_to!(self->Binary_0 => self->Binary_0.operands));
                        assert(decreases_to!(self->Binary_0.operands => self->Binary_0.operands@));
                        assert(decreases_to!(self->Binary_0.operands@ => self->Binary_0.operands@[i as int]));
                        assert(self->Binary_0.operands@[i as int] == b.operands@[i as int]);
                    }
                    ops.push(b.operands[i].duplicate());
                    i = i + 1;
                }
                proof {
                    assert(views_of_seq(ops@) =~= views_of_seq(b.operands@));
                }
                Ast::Binary(Binary { operator: b.operator, operands: ops })
            }
            Ast::Unary(u) => Ast::Unary(Unary {
                operator: u.operator,
                operand: Box::new(u.operand.duplicate()),
            }),
        }
    }
}

/// The nodes a depth-limited walk visits, parent first, children left to
/// right, each child under one less budget; a zero budget visits nothing.
pub open spec fn preorder(limit: nat, t: Exp) -> Seq<Exp>
    decreases limit, 0int, 0int,
{
    if limit == 0 {
        Seq::empty()
    } else {
        seq![t] + match t {
            Exp::Binary(op, ops) => preorder_seq((limit - 1) as nat, ops),
            Exp::Unary(op, x) => preorder((limit - 1) as nat, *x),
            _ => Seq::empty(),
        }
    }
}

/// Concatenated [`preorder`] walks of a list of children.
pub open spec fn preorder_seq(limit: nat, s: Seq<Exp>) -> Seq<Exp>
    decreases limit, 1int, s.len(),
{
    if s.len() == 0 {
        Seq::empty()
    } else {
        preorder(limit, s[0]) + preorder_seq(limit, s.drop_first())
    }
}

impl Ast {
    /// Visit every node down to `limit` depth, collecting the visited nodes
    /// parent-first and left to right; subtrees beyond the budget are not
    /// entered.
    #[verifier::loop_isolation(false)]
    pub fn recurse(&self, limit: usize) -> (r: Vec<Ast>)
        ensures
            views_of_seq(r@) =~= preorder(limit as nat, self@),
        decreases limit,
    {
        proof {
            broadcast use {lemma_views_of_seq_len, lemma_views_of_seq_index};
        }
        let mut out: Vec<Ast> = Vec::new();
        if limit == 0 {
            return out;
        }
        out.push(self.duplicate());
        match self {
            Ast::Binary(b) => {
                let ghost full = views_of_seq(b.operands@);
                let mut i: usize = 0;
                proof {
                    assert(full.skip(0) =~= full);
                }
                while i < b.operands.len()
                    invariant
                        0 <= i <= b.operands.len(),
                        views_of_seq(out@) =~= seq![self@] + preorder_seq(
                            (limit - 1) as nat,
                            full.take(i as int),
                        ),
                    decreases b.operands.len() - i,
                {
                    let ghost outv = views_of_seq(out@);
                    let mut part = b.operands[i].recurse(limit - 1);
                    let ghost partv = views_of_seq(part@);
                    out.append(&mut part);
                    proof {
                        assert(views_of_seq(out@) =~= outv + partv);
                        lemma_preorder_seq_step((limit - 1) as nat, full, i as int);
                    }
                    i = i + 1;
                }
                proof {
                    assert(full.take(b.operands@.len() as int) =~= full);
                }
                out
            }
            Ast::Unary(u) => {
                proof {
                    assert(decreases_to!(*self => self->Unary_0));
                    assert(self->Unary_0 == *u);
                }
                let mut part = u.operand.recurse(limit - 1);
                let ghost outv = views_of_seq(out@);
                let ghost partv = views_of_seq(part@);
                out.append(&mut part);
                proof {
                    assert(views_of_seq(out@) =~= outv + partv);
                }
                out
            }
            _ => out,
        }
    }
}

proof fn lemma_preorder_seq_step(limit: nat, s: Seq<Exp>, i: int)
    requires
        0 <= i < s.len(),
    ensures
        preorder_seq(limit, s.take(i + 1)) =~= preorder_seq(limit, s.take(i)) + preorder(
            limit,
            s[i],
        ),
    decreases i,
{
    if i == 0 {
        assert(s.take(1).drop_first() =~= Seq::<Exp>::empty());
        assert(s.take(0) =~= Seq::<Exp>::empty());
        assert(s.take(1)[0] == s[0]);
    } else {
        lemma_preorder_seq_step(limit, s.drop_first(), i - 1);
        assert(s.take(i + 1).drop_first() =~= s.drop_first().take(i));
        assert(s.take(i).drop_first() =~= s.drop_first().take(i - 1));
        assert(s.take(i + 1)[0] == s[0]);
        assert(s.take(i)[0] == s[0]);
        assert(s.drop_first()[i - 1] == s[i]);
    }
}

} // verus!
