//! A minimal left-to-right expression evaluator built from two mechanisms:
//! a curried-application token model (values and callables share one type and
//! combine through a single binary `apply` operation) and a nested-scope
//! execution stack (a LIFO stack that owns at most one child stack, used to
//! evaluate parenthesised sub-expressions in isolation).

pub mod function;
pub mod ops;
pub mod scanner;
pub mod stack;
pub mod tokenizer;
