//! Arithmetic plans: the straight-line programs the evaluator emits.
//!
//! The evaluator's control flow never depends on a numeric value, so instead
//! of computing with floating-point numbers it records each arithmetic
//! operation as a [`Step`]. The embedding program executes the steps in
//! order with 64-bit IEEE-754 arithmetic; step `i` may only read literals,
//! bit patterns, and the results of steps before `i`.

use crate::token::{Num, NumV};
use vstd::prelude::*;

verus! {

/// A binary arithmetic operator of the evaluator's precedence tiers.
#[derive(Clone, Copy, Debug)]
pub enum BinOp {
    Add,
    Sub,
    Mul,
    Div,
    Mod,
    Pow,
    And,
    Or,
    Xor,
    Shl,
    Shr,
}

/// A built-in function of one argument. `Log` is the base-10 logarithm and
/// `Ln`, despite its name, the base-2 logarithm, as the calculator has
/// always computed it.
#[derive(Clone, Copy, Debug)]
pub enum Builtin {
    Sin,
    Cos,
    Tan,
    Asin,
    Acos,
    Atan,
    Sqrt,
    Log,
    Ln,
}

/// One step of an arithmetic plan.
#[derive(Debug)]
pub enum Step {
    /// Combine two values with a binary operator.
    Bin { op: BinOp, a: Num, b: Num },
    /// Apply a built-in function; `scale` asks for the argument to be
    /// multiplied by pi/180 first (degree mode on a trigonometric built-in).
    Apply { f: Builtin, arg: Num, scale: bool },
}

/// Spec-level counterpart of [`Step`].
pub enum StepV {
    Bin { op: BinOp, a: NumV, b: NumV },
    Apply { f: Builtin, arg: NumV, scale: bool },
}

impl DeepView for Step {
    type V = StepV;

    open spec fn deep_view(&self) -> StepV {
        match self {
            Step::Bin { op, a, b } => StepV::Bin { op: *op, a: a.deep_view(), b: b.deep_view() },
            Step::Apply { f, arg, scale } => StepV::Apply {
                f: *f,
                arg: arg.deep_view(),
                scale: *scale,
            },
        }
    }
}

/// A numeric value that reads only plan steps before `bound`.
pub open spec fn num_wf(n: NumV, bound: int) -> bool {
    match n {
        NumV::Ref(i) => 0 <= i < bound,
        _ => true,
    }
}

/// A step standing at index `idx` that reads only earlier steps.
pub open spec fn step_wf(st: StepV, idx: int) -> bool {
    match st {
        StepV::Bin { op, a, b } => num_wf(a, idx) && num_wf(b, idx),
        StepV::Apply { f, arg, scale } => num_wf(arg, idx),
    }
}

/// A plan whose every step reads only the steps before it; such a plan can
/// be executed in one forward pass.
pub open spec fn plan_wf(p: Seq<StepV>) -> bool {
    forall|i: int| 0 <= i < p.len() ==> step_wf(#[trigger] p[i], i)
}

/// Every token-borne value of the sequence reads only plan steps before
/// `bound`.
pub open spec fn seq_num_wf(s: Seq<crate::token::TokV>, bound: int) -> bool {
    forall|i: int|
        0 <= i < s.len() ==> match #[trigger] s[i] {
            crate::token::TokV::Number(n) => num_wf(n, bound),
            _ => true,
        }
}


} // verus!
