//! Structural-equivalence tests.

use yafc::ast::binary::{Binary, BinaryOp};
use yafc::ast::unary::{Unary, UnaryOp};
use yafc::ast::Ast;

fn num(n: i64) -> Ast {
    Ast::num(n)
}

fn var(s: &str) -> Ast {
    Ast::var(s)
}

#[test]
pub fn structural_eq_bin() {
    let a = Binary::new(BinaryOp::Add).with(num(2)).with(var("a")).with(num(4)).build();
    let b = Binary::new(BinaryOp::Add).with(num(4)).with(num(2)).with(var("a")).build();

    assert!(a.structural_eq(&b));

    let a = Binary::new(BinaryOp::Add).with(num(2)).with(var("a")).with(num(4)).build();
    let b = Binary::new(BinaryOp::Add).with(num(4)).with(num(2)).with(var("a")).build();

    assert!(a.structural_eq(&b));
}

#[test]
pub fn structural_eq_bin_0() {
    let a = Binary::new(BinaryOp::Mul).with(num(0)).with(var("a")).with(num(4)).build();
    let b = Binary::new(BinaryOp::Mul).with(num(0)).with(num(4)).with(var("a")).build();

    assert!(a.structural_eq(&b));

    let a = Binary::new(BinaryOp::Mul).with(num(0)).with(var("b")).with(num(4)).build();
    let b = Binary::new(BinaryOp::Mul).with(num(0)).with(num(4)).with(var("a")).build();

    assert!(!a.structural_eq(&b));
}

#[test]
pub fn structural_eq_bin_pow() {
    let a = Binary::new(BinaryOp::Pow).with(var("a")).with(num(5)).with(num(4)).build();
    let b = Binary::new(BinaryOp::Pow).with(var("a")).with(num(5)).with(num(4)).build();

    assert!(a.structural_eq(&b));

    let a = Binary::new(BinaryOp::Pow).with(var("a")).with(num(5)).with(num(4)).build();
    let b = Binary::new(BinaryOp::Pow).with(var("a")).with(num(4)).with(num(5)).build();

    assert!(!a.structural_eq(&b));
}

#[test]
pub fn structural_eq_bin_nest() {
    let a = Binary::new(BinaryOp::Mul)
        .with(Binary::new(BinaryOp::Add).with(num(2)).with(var("h")).with(num(0)).build())
        .with(var("a"))
        .with(num(4))
        .build();
    let b = Binary::new(BinaryOp::Mul)
        .with(num(4))
        .with(var("a"))
        .with(Binary::new(BinaryOp::Add).with(num(0)).with(var("h")).with(num(2)).build())
        .build();

    assert!(a.structural_eq(&b));

    let a = Binary::new(BinaryOp::Mul)
        .with(Binary::new(BinaryOp::Add).with(num(2)).with(var("h")).with(num(0)).build())
        .with(var("a"))
        .with(num(4))
        .build();
    let b = Binary::new(BinaryOp::Mul)
        .with(num(4))
        .with(var("a"))
        .with(Binary::new(BinaryOp::Pow).with(num(0)).with(var("h")).with(num(2)).build())
        .build();

    assert!(!a.structural_eq(&b));
}

#[test]
pub fn structural_eq_un() {
    let a = Unary {
        operator: UnaryOp::Fac,
        operand: Box::new(Binary::new(BinaryOp::Pow).with(num(2)).with(num(3)).build()),
    }
    .build();
    let b = Unary {
        operator: UnaryOp::Fac,
        operand: Box::new(Binary::new(BinaryOp::Pow).with(num(2)).with(num(3)).build()),
    }
    .build();

    assert!(a.structural_eq(&b));
}

#[test]
pub fn equivalence_is_reflexive_on_samples() {
    let samples = vec![
        num(0),
        var("x"),
        Binary::new(BinaryOp::Add).with(num(1)).with(var("x")).build(),
        Binary::new(BinaryOp::Pow).with(var("x")).with(num(2)).with(num(3)).build(),
        Ast::unary(UnaryOp::Fac, var("n")),
    ];
    for s in &samples {
        assert!(s.structural_eq(s));
    }
}

#[test]
pub fn equivalence_ignores_multiplicity() {
    // Known non-property: the commutative matching is many-to-one, so sums
    // whose operand multisets differ only in multiplicities still compare
    // as equivalent.
    let two = Binary::new(BinaryOp::Add).with(var("a")).with(var("a")).build();
    let three = Binary::new(BinaryOp::Add).with(var("a")).with(var("a")).with(var("a")).build();

    assert!(two.structural_eq(&three));
    assert!(three.structural_eq(&two));
}
