//! The flat error taxonomy of the calculator.

use crate::token::{TokV, Token};
use vstd::prelude::*;

verus! {

/// Everything that can go wrong while lexing, validating, evaluating or
/// defining. Every variant carries enough context (the offending byte string
/// or token) for the embedding program to render a message.
#[derive(Debug)]
pub enum CalcError {
    FuncNoName,
    FuncIncorrectArgCount(usize),
    FuncDoesNotExist(Vec<u8>),
    FuncArgsNotInBrackets,
    FuncExpectedComma,
    FuncExpectedArg,
    FuncHardcodedReassignAttempt(Vec<u8>),
    CannotParseNumber(Vec<u8>),
    CannotParseOperator(Vec<u8>),
    VarDoesNotExist(Vec<u8>),
    NoInput,
    TooManyAssignmentOps,
    InvalidFirstToken(Token),
    InvalidLastToken(Token),
    InvalidTokenSeq,
    ImbalancedBrackets,
    MisplacedComma,
    LhsMustBeVarOrFunc,
    FailedToSolveEquation,
    TooMuchRecursion,
}

/// Spec-level counterpart of [`CalcError`].
pub enum ErrV {
    FuncNoName,
    FuncIncorrectArgCount(int),
    FuncDoesNotExist(Seq<u8>),
    FuncArgsNotInBrackets,
    FuncExpectedComma,
    FuncExpectedArg,
    FuncHardcodedReassignAttempt(Seq<u8>),
    CannotParseNumber(Seq<u8>),
    CannotParseOperator(Seq<u8>),
    VarDoesNotExist(Seq<u8>),
    NoInput,
    TooManyAssignmentOps,
    InvalidFirstToken(TokV),
    InvalidLastToken(TokV),
    InvalidTokenSeq,
    ImbalancedBrackets,
    MisplacedComma,
    LhsMustBeVarOrFunc,
    FailedToSolveEquation,
    TooMuchRecursion,
}

impl DeepView for CalcError {
    type V = ErrV;

    open spec fn deep_view(&self) -> ErrV {
        match self {
            CalcError::FuncNoName => ErrV::FuncNoName,
            CalcError::FuncIncorrectArgCount(n) => ErrV::FuncIncorrectArgCount(*n as int),
            CalcError::FuncDoesNotExist(name) => ErrV::FuncDoesNotExist(name.deep_view()),
            CalcError::FuncArgsNotInBrackets => ErrV::FuncArgsNotInBrackets,
            CalcError::FuncExpectedComma => ErrV::FuncExpectedComma,
            CalcError::FuncExpectedArg => ErrV::FuncExpectedArg,
            CalcError::FuncHardcodedReassignAttempt(name) => ErrV::FuncHardcodedReassignAttempt(
                name.deep_view(),
            ),
            CalcError::CannotParseNumber(s) => ErrV::CannotParseNumber(s.deep_view()),
            CalcError::CannotParseOperator(s) => ErrV::CannotParseOperator(s.deep_view()),
            CalcError::VarDoesNotExist(name) => ErrV::VarDoesNotExist(name.deep_view()),
            CalcError::NoInput => ErrV::NoInput,
            CalcError::TooManyAssignmentOps => ErrV::TooManyAssignmentOps,
            CalcError::InvalidFirstToken(t) => ErrV::InvalidFirstToken(t.deep_view()),
            CalcError::InvalidLastToken(t) => ErrV::InvalidLastToken(t.deep_view()),
            CalcError::InvalidTokenSeq => ErrV::InvalidTokenSeq,
            CalcError::ImbalancedBrackets => ErrV::ImbalancedBrackets,
            CalcError::MisplacedComma => ErrV::MisplacedComma,
            CalcError::LhsMustBeVarOrFunc => ErrV::LhsMustBeVarOrFunc,
            CalcError::FailedToSolveEquation => ErrV::FailedToSolveEquation,
            CalcError::TooMuchRecursion => ErrV::TooMuchRecursion,
        }
    }
}

/// Deep view of a `Result` whose two sides both have deep views.
pub open spec fn result_dv<T: DeepView, E: DeepView>(r: Result<T, E>) -> Result<T::V, E::V> {
    match r {
        Ok(t) => Ok(t.deep_view()),
        Err(e) => Err(e.deep_view()),
    }
}

} // verus!
