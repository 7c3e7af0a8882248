//! A symbolic algebra simplification engine over integer arithmetic trees.
//!
//! Expressions are modelled as trees of numbers, variables, n-ary binary
//! operators (addition, multiplication, right-associative power towers) and
//! unary operators (factorial).  The simplifier applies a fixed pipeline of
//! bottom-up rewrite passes: associativity flattening, like-term combination,
//! and numeric constant folding.

pub mod ast;
pub mod eq;
pub mod laws;
pub mod printer;
pub mod simplifier;
