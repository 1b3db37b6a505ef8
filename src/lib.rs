//! Symbolic regression by genetic programming: expression trees over one
//! variable, their simplification, random construction and mutation, the
//! selection schedule of the inner and outer evolutionary loops, and the
//! tokenizer of the postfix expression notation.
//!
//! Floating-point values never appear here: a constant or a sample is
//! carried as its IEEE-754 single-precision bit pattern (`u32`), and every
//! operation that interprets such a pattern, or that depends on the
//! hyperparameters, is supplied by the caller as a pure function. Everything
//! stated here holds for every such function that meets the stated
//! preconditions.

pub mod evolve;
pub mod expression;
pub mod meta;
pub mod numeric;
pub mod random;
pub mod tokenizer;
pub mod tree;
