//! An interactive arithmetic expression evaluator.
//!
//! A line of input is lexed into a flat token sequence, identifiers are
//! classified as variables or function-call heads, the sequence is checked for
//! grammatical well-formedness, and it is then reduced to a single numeric
//! result by repeated structural and precedence-tier reduction passes.
//! Variable and user-defined-function definitions mutate a persistent
//! [`engine::Calculator`] state.
//!
//! Numbers are kept opaque throughout: a numeric value is a decimal literal
//! (a digit string with a sign), a 64-bit IEEE-754 bit pattern, or a
//! reference to a step of an arithmetic plan. The evaluator never interprets
//! numeric values - its control flow depends only on token structure - and
//! instead emits a straight-line [`plan::Step`] list that the embedding
//! program executes with its native floating-point arithmetic before
//! committing the result back into the calculator state.

pub mod engine;
pub mod error;
pub mod laws;
pub mod map;
pub mod math_function;
pub mod plan;
pub mod validate;
pub mod solve;
pub mod token;
