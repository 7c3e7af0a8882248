//! Tree model tests: construction invariants and the inspection walk.

use yafc::ast::binary::{Binary, BinaryOp};
use yafc::ast::Ast;

fn num(n: i64) -> Ast {
    Ast::num(n)
}

fn var(s: &str) -> Ast {
    Ast::var(s)
}

#[test]
pub fn test_build_collapses_empty_nodes() {
    assert_eq!(Binary::new(BinaryOp::Add).build(), num(0));
    assert_eq!(Binary::new(BinaryOp::Mul).build(), num(1));
    assert_eq!(Binary::new(BinaryOp::Pow).build(), num(1));
}

#[test]
pub fn test_build_collapses_singletons() {
    assert_eq!(Binary::new(BinaryOp::Add).with(var("x")).build(), var("x"));
    assert_eq!(Binary::new(BinaryOp::Mul).with(num(7)).build(), num(7));
}

#[test]
pub fn test_build_keeps_wide_nodes() {
    let two = Binary::new(BinaryOp::Add).with(var("x")).with(var("y")).build();
    match &two {
        Ast::Binary(b) => {
            assert_eq!(b.operator, BinaryOp::Add);
            assert_eq!(b.operands.len(), 2);
        }
        _ => panic!("expected a binary node"),
    }
}

#[test]
pub fn test_negate() {
    let neg = Binary::negate(var("x")).build();
    let expected = Binary::new(BinaryOp::Mul).with(var("x")).with(num(-1)).build();
    assert_eq!(neg, expected);
}

#[test]
pub fn test_push_appends() {
    let mut b = Binary::new(BinaryOp::Add).with(num(1));
    b.push(num(2));
    assert_eq!(b.build(), Binary::new(BinaryOp::Add).with(num(1)).with(num(2)).build());
}

#[test]
pub fn test_duplicate_is_equal() {
    let t = Binary::new(BinaryOp::Mul)
        .with(num(2))
        .with(Binary::new(BinaryOp::Pow).with(var("y")).with(num(3)).build())
        .build();
    assert_eq!(t.duplicate(), t);
}

#[test]
pub fn test_recurse_visits_parent_first() {
    let t = Binary::new(BinaryOp::Add)
        .with(num(1))
        .with(Binary::new(BinaryOp::Mul).with(num(2)).with(num(3)).build())
        .build();

    let visited = t.recurse(32);
    assert_eq!(visited.len(), 5);
    assert_eq!(visited[0], t);
    assert_eq!(visited[1], num(1));
    assert_eq!(visited[2], Binary::new(BinaryOp::Mul).with(num(2)).with(num(3)).build());
    assert_eq!(visited[3], num(2));
    assert_eq!(visited[4], num(3));

    // The budget bounds the walk.
    let shallow = t.recurse(1);
    assert_eq!(shallow.len(), 1);
    assert_eq!(shallow[0], t);
    assert_eq!(t.recurse(0).len(), 0);
}
