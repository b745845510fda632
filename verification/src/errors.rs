//! Error types: parse failures with their positions, and the evaluation
//! errors kept for the downstream interpreter.

use vstd::prelude::*;

verus! {

/// Why a parse failed.
#[derive(Debug, Clone, Copy, PartialEq, Eq, Structural)]
pub enum ParseErrorKind {
    /// The input at the position matches no expected alternative.
    Syntax,
    /// A lexically valid field name outside the closed set.
    UnrecognizedField,
    /// The parser's step budget ran out. The budgets this library grants
    /// outlast any input, so this kind is never produced; the grammar
    /// module's `lemma_budget_never_binds` proves it.
    Budget,
}

/// A local parse failure, carrying the position it arose at.
#[derive(Debug, Clone, Copy, PartialEq, Eq)]
pub struct ParseError {
    pub pos: usize,
    pub kind: ParseErrorKind,
}

/// The mathematical shape of a `ParseError`.
#[verifier::ext_equal]
pub struct ErrV {
    pub pos: int,
    pub kind: ParseErrorKind,
}

impl View for ParseError {
    type V = ErrV;

    open spec fn view(&self) -> ErrV {
        ErrV { pos: self.pos as int, kind: self.kind }
    }
}

/// A file-level failure: the underlying parse error together with the
/// position of the unconsumed remainder.
#[derive(Debug, Clone, Copy, PartialEq, Eq)]
pub struct FileError {
    pub cause: ParseError,
    pub rest: usize,
}

/// The mathematical shape of a `FileError`.
#[verifier::ext_equal]
pub struct FileErrV {
    pub cause: ErrV,
    pub rest: int,
}

impl View for FileError {
    type V = FileErrV;

    open spec fn view(&self) -> FileErrV {
        FileErrV { cause: self.cause@, rest: self.rest as int }
    }
}

/// Errors of the expression evaluator that consumes operator records.
#[derive(Debug, PartialEq, Eq)]
pub enum EvaluationError {
    DivisionByZero,
    Underflow,
    Overflow,
    Message(String),
}

impl EvaluationError {
    /// A human-readable description of the error.
    pub fn message(&self) -> (r: String)
        ensures
            *self == EvaluationError::DivisionByZero ==> r@ == "Division by zero"@,
            *self == EvaluationError::Underflow ==> r@ == "Underflow"@,
            *self == EvaluationError::Overflow ==> r@ == "Overflow"@,
            *self matches EvaluationError::Message(m) ==> r@ == m@,
    {
        match self {
            EvaluationError::DivisionByZero => "Division by zero".to_owned(),
            EvaluationError::Underflow => "Underflow".to_owned(),
            EvaluationError::Overflow => "Overflow".to_owned(),
            EvaluationError::Message(message) => message.clone(),
        }
    }
}

} // verus!
