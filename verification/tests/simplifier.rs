//! Rewrite-pass and pipeline tests.

use yafc::ast::binary::{Binary, BinaryOp};
use yafc::ast::unary::UnaryOp;
use yafc::ast::Ast;
use yafc::simplifier::{Pass, Simplifier};

fn num(n: i64) -> Ast {
    Ast::num(n)
}

fn var(s: &str) -> Ast {
    Ast::var(s)
}

fn spaced(ast: &Ast) -> String {
    ast.format(None, true)
}

#[test]
pub fn test_de_paren() {
    let ast = Binary::new(BinaryOp::Mul)
        .with(Binary::new(BinaryOp::Mul).with(num(0)).with(num(1)).build())
        .with(Binary::new(BinaryOp::Add).with(var("a")).with(var("b")).build())
        .with(num(3))
        .build();
    let lhs = Simplifier::de_paren(ast);
    let rhs = Binary::new(BinaryOp::Mul)
        .with(num(0))
        .with(num(1))
        .with(Binary::new(BinaryOp::Add).with(var("a")).with(var("b")).build())
        .with(num(3))
        .build();

    assert_eq!(lhs, rhs);
}

#[test]
pub fn de_paren_test_de_paren() {
    // (0 * 1) * (a + b) * 3  =>  0 * 1 * (a + b) * 3
    let input = Binary::new(BinaryOp::Mul)
        .with(Binary::new(BinaryOp::Mul).with(num(0)).with(num(1)).build())
        .with(Binary::new(BinaryOp::Add).with(var("a")).with(var("b")).build())
        .with(num(3))
        .build();
    let lhs = input.map(32, Pass::DeParen);
    assert_eq!(spaced(&lhs), "0 * 1 * (a + b) * 3");

    // (0 * 1 * (a * b * (f * g))) * (a + b + c * d) * 3
    //   =>  0 * 1 * a * b * f * g * (a + b + c * d) * 3
    let input = Binary::new(BinaryOp::Mul)
        .with(
            Binary::new(BinaryOp::Mul)
                .with(num(0))
                .with(num(1))
                .with(
                    Binary::new(BinaryOp::Mul)
                        .with(var("a"))
                        .with(var("b"))
                        .with(Binary::new(BinaryOp::Mul).with(var("f")).with(var("g")).build())
                        .build(),
                )
                .build(),
        )
        .with(
            Binary::new(BinaryOp::Add)
                .with(var("a"))
                .with(var("b"))
                .with(Binary::new(BinaryOp::Mul).with(var("c")).with(var("d")).build())
                .build(),
        )
        .with(num(3))
        .build();
    let lhs = input.map(32, Pass::DeParen);
    assert_eq!(spaced(&lhs), "0 * 1 * a * b * f * g * (a + b + c * d) * 3");
}

#[test]
pub fn test_binary_num_ops_examples() {
    // 1 + a + 2 + 3  =>  6 + a
    let input =
        Binary::new(BinaryOp::Add).with(num(1)).with(var("a")).with(num(2)).with(num(3)).build();
    assert_eq!(spaced(&input), "1 + a + 2 + 3");
    assert_eq!(spaced(&input.map(32, Pass::BinaryNumOps)), "6 + a");

    // 0 + a  =>  a
    let input = Binary::new(BinaryOp::Add).with(num(0)).with(var("a")).build();
    assert_eq!(spaced(&input), "0 + a");
    assert_eq!(spaced(&input.map(32, Pass::BinaryNumOps)), "a");

    // 1 * a * 2 * 3  =>  6 * a
    let input =
        Binary::new(BinaryOp::Mul).with(num(1)).with(var("a")).with(num(2)).with(num(3)).build();
    assert_eq!(spaced(&input), "1 * a * 2 * 3");
    assert_eq!(spaced(&input.map(32, Pass::BinaryNumOps)), "6 * a");

    // 1 * a  =>  a
    let input = Binary::new(BinaryOp::Mul).with(num(1)).with(var("a")).build();
    assert_eq!(spaced(&input), "1 * a");
    assert_eq!(spaced(&input.map(32, Pass::BinaryNumOps)), "a");

    // 0 * a  =>  0
    let input = Binary::new(BinaryOp::Mul).with(num(0)).with(var("a")).build();
    assert_eq!(spaced(&input), "0 * a");
    assert_eq!(spaced(&input.map(32, Pass::BinaryNumOps)), "0");

    // 1 ^ a ^ 2 ^ 3  =>  1
    let input = Binary::new(BinaryOp::Pow)
        .with(num(1))
        .with(var("a"))
        .with(num(2))
        .with(num(3))
        .build();
    assert_eq!(spaced(&input), "1 ^ a ^ 2 ^ 3");
    assert_eq!(spaced(&input.map(32, Pass::BinaryNumOps)), "1");

    // a ^ 2 ^ 3  =>  a ^ 8
    let input = Binary::new(BinaryOp::Pow).with(var("a")).with(num(2)).with(num(3)).build();
    assert_eq!(spaced(&input), "a ^ 2 ^ 3");
    assert_eq!(spaced(&input.map(32, Pass::BinaryNumOps)), "a ^ 8");

    // a ^ 0  =>  1
    let input = Binary::new(BinaryOp::Pow).with(var("a")).with(num(0)).build();
    assert_eq!(spaced(&input), "a ^ 0");
    assert_eq!(spaced(&input.map(32, Pass::BinaryNumOps)), "1");

    // a ^ 1  =>  a
    let input = Binary::new(BinaryOp::Pow).with(var("a")).with(num(1)).build();
    assert_eq!(spaced(&input), "a ^ 1");
    assert_eq!(spaced(&input.map(32, Pass::BinaryNumOps)), "a");
}

/// The sum used by the like-term combination scenarios:
/// `y * x * 2 + x + x * 2 + 3`.
fn combine_input() -> Ast {
    Binary::new(BinaryOp::Add)
        .with(Binary::new(BinaryOp::Mul).with(var("y")).with(var("x")).with(num(2)).build())
        .with(var("x"))
        .with(Binary::new(BinaryOp::Mul).with(var("x")).with(num(2)).build())
        .with(num(3))
        .build()
}

#[test]
pub fn test_combine_then_fold() {
    // y * x * 2 + x + x * 2 + 3, combined and then folded once,
    // gives 3 + (3 + 2 * y) * x.
    let input = combine_input();
    assert_eq!(spaced(&input), "y * x * 2 + x + x * 2 + 3");

    let combined = input.map(32, Pass::CombineTerms);
    let folded = combined.map(32, Pass::BinaryNumOps);

    let expected = Binary::new(BinaryOp::Add)
        .with(num(3))
        .with(
            Binary::new(BinaryOp::Mul)
                .with(
                    Binary::new(BinaryOp::Add)
                        .with(num(3))
                        .with(Binary::new(BinaryOp::Mul).with(num(2)).with(var("y")).build())
                        .build(),
                )
                .with(var("x"))
                .build(),
        )
        .build();
    assert_eq!(folded, expected);
    assert_eq!(spaced(&folded), "3 + (3 + 2 * y) * x");
}

#[test]
pub fn test_run_pipeline() {
    let out = Simplifier::run(combine_input());
    assert_eq!(spaced(&out), "3 + (3 + 2 * y) * x");

    let sum =
        Binary::new(BinaryOp::Add).with(num(1)).with(var("a")).with(num(2)).with(num(3)).build();
    let out = Simplifier::run(sum);
    assert_eq!(spaced(&out), "6 + a");
}

#[test]
pub fn test_unary_num_ops() {
    // 4! => 24
    let out = Simplifier::unary_num_ops(Ast::unary(UnaryOp::Fac, num(4)));
    assert_eq!(out, num(24));

    // 0! => 1
    let out = Simplifier::unary_num_ops(Ast::unary(UnaryOp::Fac, num(0)));
    assert_eq!(out, num(1));

    // 11! is beyond the deliberate bound and stays symbolic.
    let out = Simplifier::unary_num_ops(Ast::unary(UnaryOp::Fac, num(11)));
    assert_eq!(out, Ast::unary(UnaryOp::Fac, num(11)));

    // A negative operand is not folded.
    let out = Simplifier::unary_num_ops(Ast::unary(UnaryOp::Fac, num(-3)));
    assert_eq!(out, Ast::unary(UnaryOp::Fac, num(-3)));

    // A symbolic operand is not folded.
    let out = Simplifier::unary_num_ops(Ast::unary(UnaryOp::Fac, var("n")));
    assert_eq!(out, Ast::unary(UnaryOp::Fac, var("n")));
}

#[test]
pub fn test_fold_overflow_policy() {
    // An accumulation that would overflow leaves the node unchanged.
    let input = Binary::new(BinaryOp::Add).with(num(i64::MAX)).with(num(1)).build();
    let out = input.duplicate().map(32, Pass::BinaryNumOps);
    assert_eq!(out, input);

    // The checked left-to-right product bails out before reaching the zero.
    let input =
        Binary::new(BinaryOp::Mul).with(num(i64::MAX)).with(num(2)).with(num(0)).build();
    let out = input.duplicate().map(32, Pass::BinaryNumOps);
    assert_eq!(out, input);

    // A literal power beyond the range stays symbolic.
    let input = Binary::new(BinaryOp::Pow).with(num(2)).with(num(70)).build();
    let out = input.duplicate().map(32, Pass::BinaryNumOps);
    assert_eq!(out, input);
}

#[test]
pub fn test_combine_keeps_lonely_terms() {
    // a + b shares no factors: the sum survives with its operands intact.
    let input = Binary::new(BinaryOp::Add).with(var("a")).with(var("b")).build();
    let out = input.duplicate().map(32, Pass::CombineTerms);
    assert_eq!(out, input);
}

#[test]
pub fn test_combine_groups_pair() {
    // x + x => (1 + 1) * x
    let input = Binary::new(BinaryOp::Add).with(var("x")).with(var("x")).build();
    let out = input.map(32, Pass::CombineTerms);
    let expected = Binary::new(BinaryOp::Mul)
        .with(Binary::new(BinaryOp::Add).with(num(1)).with(num(1)).build())
        .with(var("x"))
        .build();
    assert_eq!(out, expected);
}

#[test]
pub fn test_extract_roundtrip_concrete() {
    // 2xy / x: coefficient times factor, after one fold, is equivalent to
    // the term after one de-paren and one fold.
    let term = Binary::new(BinaryOp::Mul).with(num(2)).with(var("x")).with(var("y")).build();
    let out = yafc::simplifier::factorize::term_factor_extract(term.duplicate(), &var("x"));
    match out {
        yafc::simplifier::factorize::TermFactorExtractResult::Found { factor, coefficient } => {
            let mut product = match coefficient {
                Ast::Binary(b) => {
                    let mut b = b;
                    b.push(factor);
                    Ast::Binary(b)
                }
                other => Binary::new(BinaryOp::Mul).with(other).with(factor).build(),
            };
            product = product.map(32, Pass::BinaryNumOps);
            let reference = term.map(32, Pass::DeParen).map(32, Pass::BinaryNumOps);
            assert!(product.structural_eq(&reference));
        }
        _ => panic!("extraction failed"),
    }
}
