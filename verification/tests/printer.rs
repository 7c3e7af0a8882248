//! Canonical rendering tests.

use yafc::ast::binary::{Binary, BinaryOp};
use yafc::ast::unary::{UnaryAffix, UnaryOp};
use yafc::ast::Ast;
use yafc::printer::needs_paren;

fn num(n: i64) -> Ast {
    Ast::num(n)
}

fn var(s: &str) -> Ast {
    Ast::var(s)
}

#[test]
pub fn test_format_modes() {
    let e = Binary::new(BinaryOp::Mul)
        .with(Binary::new(BinaryOp::Add).with(var("a")).with(var("b")).build())
        .with(var("c"))
        .build();
    assert_eq!(e.format(None, false), "(a+b)*c");
    assert_eq!(e.format(None, true), "(a + b) * c");
}

#[test]
pub fn test_format_precedence() {
    // A sum inside a product or power needs parentheses; a product inside a
    // power does too; a power never does; same operators never nest after
    // flattening.
    let add_in_pow = Binary::new(BinaryOp::Pow)
        .with(Binary::new(BinaryOp::Add).with(var("a")).with(var("b")).build())
        .with(num(2))
        .build();
    assert_eq!(add_in_pow.format(None, false), "(a+b)^2");

    let mul_in_pow = Binary::new(BinaryOp::Pow)
        .with(Binary::new(BinaryOp::Mul).with(var("a")).with(var("b")).build())
        .with(num(2))
        .build();
    assert_eq!(mul_in_pow.format(None, false), "(a*b)^2");

    let pow_in_add = Binary::new(BinaryOp::Add)
        .with(Binary::new(BinaryOp::Pow).with(var("a")).with(num(2)).build())
        .with(var("b"))
        .build();
    assert_eq!(pow_in_add.format(None, false), "a^2+b");

    let mul_in_add = Binary::new(BinaryOp::Add)
        .with(Binary::new(BinaryOp::Mul).with(var("a")).with(var("b")).build())
        .with(var("c"))
        .build();
    assert_eq!(mul_in_add.format(None, false), "a*b+c");
}

#[test]
pub fn test_format_numbers() {
    assert_eq!(num(0).format(None, false), "0");
    assert_eq!(num(42).format(None, false), "42");
    assert_eq!(num(-5).format(None, false), "-5");
    assert_eq!(num(i64::MAX).format(None, false), "9223372036854775807");
    assert_eq!(num(i64::MIN).format(None, false), "-9223372036854775808");
}

#[test]
pub fn test_format_factorial() {
    let e = Ast::unary(UnaryOp::Fac, num(4));
    assert_eq!(e.format(None, false), "4!");

    let e = Ast::unary(UnaryOp::Fac, var("n"));
    assert_eq!(e.format(None, true), "n!");
}

#[test]
pub fn test_format_degenerate_nodes() {
    // A raw empty node renders as nothing, a raw singleton as its operand.
    let empty = Binary { operator: BinaryOp::Add, operands: vec![] };
    assert_eq!(empty.format(None, false), "");

    let single = Binary { operator: BinaryOp::Mul, operands: vec![var("x")] };
    assert_eq!(single.format(None, false), "x");
}

#[test]
pub fn test_needs_paren() {
    assert!(needs_paren(Some(4), Some(3)));
    assert!(needs_paren(Some(4), Some(2)));
    assert!(needs_paren(Some(3), Some(2)));
    assert!(!needs_paren(Some(3), Some(3)));
    assert!(!needs_paren(Some(2), Some(4)));
    assert!(!needs_paren(Some(4), None));
    assert!(!needs_paren(None, Some(2)));
}

#[test]
pub fn test_precedence_table() {
    assert_eq!(BinaryOp::Add.precedence(), 4);
    assert_eq!(BinaryOp::Mul.precedence(), 3);
    assert_eq!(BinaryOp::Pow.precedence(), 2);
    assert_eq!(UnaryOp::Fac.precedence(), 1);
    assert_eq!(UnaryOp::Fac.affix(), UnaryAffix::Postfix);
}
