//! Errors of the template language: lexing, parsing and evaluation all
//! fail fast with one of these.

use crate::language::lexer::{SpecTokenCtx, TokenWithContext};
use vstd::prelude::*;

verus! {

/// An error raised while lexing, parsing or evaluating an expression.
#[derive(Debug, PartialEq)]
pub enum Error {
    /// The token stream was exhausted where a token was required. The tag
    /// names the place in the grammar, for diagnostics.
    Eof(&'static str),
    /// An unexpected token stood where the grammar required a different
    /// one; the offending token is carried for diagnostics.
    ExpressionSyntax(TokenWithContext),
    /// The raw text could not be lexed at the given character offset.
    InvalidToken { offset: usize },
    /// A variable term referenced a name absent from the context.
    UndefinedVariable(String),
    /// An operator was applied to operand types it does not support.
    TypeError,
    /// A division had a zero divisor.
    DivisionByZero,
    /// An exact arithmetic result left the machine range.
    Overflow,
    /// A function call named a method the target value does not have.
    UnknownMethod(String),
    /// A function call reached a known method with the wrong arguments.
    ArgumentError(String),
}

/// The model of an error.
pub enum SpecError {
    Eof(Seq<char>),
    ExpressionSyntax(SpecTokenCtx),
    InvalidToken { offset: int },
    UndefinedVariable(Seq<char>),
    TypeError,
    DivisionByZero,
    Overflow,
    UnknownMethod(Seq<char>),
    ArgumentError(Seq<char>),
}

/// The model of an error.
pub open spec fn view_error(e: Error) -> SpecError {
    match e {
        Error::Eof(tag) => SpecError::Eof(tag@),
        Error::ExpressionSyntax(t) => SpecError::ExpressionSyntax(t.deep_view()),
        Error::InvalidToken { offset } => SpecError::InvalidToken { offset: offset as int },
        Error::UndefinedVariable(name) => SpecError::UndefinedVariable(name@),
        Error::TypeError => SpecError::TypeError,
        Error::DivisionByZero => SpecError::DivisionByZero,
        Error::Overflow => SpecError::Overflow,
        Error::UnknownMethod(name) => SpecError::UnknownMethod(name@),
        Error::ArgumentError(name) => SpecError::ArgumentError(name@),
    }
}

impl DeepView for Error {
    type V = SpecError;

    open spec fn deep_view(&self) -> SpecError {
        view_error(*self)
    }
}

} // verus!
