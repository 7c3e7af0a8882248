//! Term-factor enumeration and extraction tests.

use yafc::ast::binary::{Binary, BinaryOp};
use yafc::ast::Ast;
use yafc::simplifier::factorize::{term_factor_extract, term_factors, TermFactorExtractResult};
use yafc::simplifier::Pass;

fn num(n: i64) -> Ast {
    Ast::num(n)
}

fn var(s: &str) -> Ast {
    Ast::var(s)
}

#[test]
pub fn test_term_factors_mul() {
    // 2xy => 2,x,y
    let term = Binary::new(BinaryOp::Mul).with(num(2)).with(var("x")).with(var("y")).build();

    let factors = term_factors(&term);

    assert_eq!(factors.len(), 3);
    assert_eq!(factors[0], num(2));
    assert_eq!(factors[1], var("x"));
    assert_eq!(factors[2], var("y"));
}

#[test]
pub fn test_term_factors_pow() {
    // x^y^z => x
    let term = Binary::new(BinaryOp::Pow).with(var("x")).with(var("y")).with(var("z")).build();

    let factors = term_factors(&term);

    assert_eq!(factors.len(), 1);
    assert_eq!(factors[0], var("x"));
}

#[test]
pub fn test_term_factors_nest() {
    // 2xy^3 => 2,x,y
    let term = Binary::new(BinaryOp::Mul)
        .with(num(2))
        .with(var("x"))
        .with(Binary::new(BinaryOp::Pow).with(var("y")).with(num(3)).build())
        .build();

    let factors = term_factors(&term);

    assert_eq!(factors.len(), 3);
    assert_eq!(factors[0], num(2));
    assert_eq!(factors[1], var("x"));
    assert_eq!(factors[2], var("y"));
}

#[test]
pub fn test_term_factors_nest_complex() {
    // ((y^2)^3)*x*(y^3)*(3*z) => y,x,y,3,z
    let term = Binary::new(BinaryOp::Mul)
        .with(
            Binary::new(BinaryOp::Pow)
                .with(Binary::new(BinaryOp::Pow).with(var("y")).with(num(2)).build())
                .with(num(3))
                .build(),
        )
        .with(var("x"))
        .with(Binary::new(BinaryOp::Pow).with(var("y")).with(num(3)).build())
        .with(Binary::new(BinaryOp::Mul).with(num(3)).with(var("z")).build())
        .build();

    let factors = term_factors(&term);

    assert_eq!(factors.len(), 5);
    assert_eq!(factors[0], var("y"));
    assert_eq!(factors[1], var("x"));
    assert_eq!(factors[2], var("y"));
    assert_eq!(factors[3], num(3));
    assert_eq!(factors[4], var("z"));
}

#[test]
pub fn test_term_factor_extract_mul() {
    // 2xy / x => x,2y
    let term = Binary::new(BinaryOp::Mul).with(num(2)).with(var("x")).with(var("y")).build();

    let lhs = term_factor_extract(term, &var("x"));
    let rhs = TermFactorExtractResult::Found {
        factor: var("x"),
        coefficient: Binary::new(BinaryOp::Mul).with(num(2)).with(var("y")).build(),
    };

    assert_eq!(lhs, rhs);
}

#[test]
pub fn test_term_factor_extract_pow() {
    // x^y^z / x => x^(-1+y^z)
    let term = Binary::new(BinaryOp::Pow).with(var("x")).with(var("y")).with(var("z")).build();

    let lhs = term_factor_extract(term, &var("x"));
    let lhs = match lhs {
        TermFactorExtractResult::Found { factor, coefficient } => {
            TermFactorExtractResult::Found {
                factor,
                coefficient: coefficient.map(32, Pass::BinaryNumOps),
            }
        }
        other => other,
    };
    let rhs = TermFactorExtractResult::Found {
        factor: var("x"),
        coefficient: Binary::new(BinaryOp::Pow)
            .with(var("x"))
            .with(
                Binary::new(BinaryOp::Add)
                    .with(num(-1))
                    .with(Binary::new(BinaryOp::Pow).with(var("y")).with(var("z")).build())
                    .build(),
            )
            .build(),
    };

    assert_eq!(lhs, rhs);
}

#[test]
pub fn test_term_factor_extract_nest() {
    // 2xy^3 / y => 2xy^2
    let term = Binary::new(BinaryOp::Mul)
        .with(num(2))
        .with(var("x"))
        .with(Binary::new(BinaryOp::Pow).with(var("y")).with(num(3)).build())
        .build();

    let lhs = term_factor_extract(term, &var("y"));
    let rhs = TermFactorExtractResult::Found {
        factor: var("y"),
        coefficient: Binary::new(BinaryOp::Mul)
            .with(num(2))
            .with(var("x"))
            .with(Binary::new(BinaryOp::Pow).with(var("y")).with(num(2)).build())
            .build(),
    };

    assert_eq!(lhs, rhs);
}

#[test]
pub fn test_term_factor_extract_nest_complex_0() {
    // y^3 / y^3 => 1
    let term = Binary::new(BinaryOp::Pow).with(var("y")).with(num(3)).build();

    let factor = term.duplicate();
    let lhs = term_factor_extract(term, &factor);
    let rhs = TermFactorExtractResult::Found { factor: var("y"), coefficient: num(1) };

    assert_eq!(lhs, rhs);
}

#[test]
pub fn test_term_factor_extract_missing() {
    // 3*x*y^2 shares no factor with z
    let term = Binary::new(BinaryOp::Mul)
        .with(num(3))
        .with(var("x"))
        .with(Binary::new(BinaryOp::Pow).with(var("y")).with(num(2)).build())
        .build();
    let original = term.duplicate();

    let lhs = term_factor_extract(term, &var("z"));
    let rhs = TermFactorExtractResult::Missed { original };

    assert_eq!(lhs, rhs);
}

#[test]
pub fn test_every_enumerated_factor_extracts() {
    // 2*x*y^2: each enumerated factor divides the term.
    let term = Binary::new(BinaryOp::Mul)
        .with(num(2))
        .with(var("x"))
        .with(Binary::new(BinaryOp::Pow).with(var("y")).with(num(2)).build())
        .build();

    let factors = term_factors(&term);
    assert_eq!(factors.len(), 3);
    for f in &factors {
        let out = term_factor_extract(term.duplicate(), f);
        assert!(matches!(out, TermFactorExtractResult::Found { .. }));
    }
}

#[test]
pub fn test_term_factors_deterministic() {
    // Enumeration is a pure function of the term: two runs agree.
    let term = Binary::new(BinaryOp::Mul)
        .with(num(2))
        .with(var("x"))
        .with(Binary::new(BinaryOp::Pow).with(var("y")).with(num(2)).build())
        .build();

    let first = term_factors(&term);
    let second = term_factors(&term);
    assert_eq!(first, second);
}
