//! The ways in which scanning, building and evaluating can fail.

use crate::token::{SpecToken, Token};
use crate::value::{SpecValue, Value};
use vstd::prelude::*;

verus! {

/// The mathematical content of an [`Error`].
pub enum SpecError {
    UnmatchedQuote,
    UnexpectedCharacter { character: char, position: int },
    UnexpectedToken(SpecToken),
    MissingClosingBracket,
    MissingOperand,
    WrongArgumentAmount { expected: int, actual: int },
    AppendedToLeafNode,
    VariableIdentifierNotFound(Seq<char>),
    FunctionIdentifierNotFound(Seq<char>),
    ExpectedNumber { actual: SpecValue },
    ExpectedBoolean { actual: SpecValue },
    IndexOutOfBounds,
    FieldNotFound(Seq<char>),
    DivisionByZero,
}

/// A failure of one of the three stages. Scanning, building and evaluating
/// stop at the first failure and hand it to the caller as it is.
#[derive(Debug, PartialEq)]
pub enum Error {
    /// A string literal has no closing quote.
    UnmatchedQuote,
    /// A character that starts no token, with its index in the text.
    UnexpectedCharacter { character: char, position: usize },
    /// A token that cannot stand where it was found.
    UnexpectedToken(Token),
    /// The text ended inside a parenthesis, an index or an argument list.
    MissingClosingBracket,
    /// An operator lacks an operand, or the text holds no expression.
    MissingOperand,
    /// A function was called with another number of arguments than it
    /// takes. A tree that the builder yields fails so for calls only.
    WrongArgumentAmount { expected: usize, actual: usize },
    /// A node that takes no children has one. No tree that the builder
    /// yields fails so.
    AppendedToLeafNode,
    /// No variable of this name is known.
    VariableIdentifierNotFound(String),
    /// No function of this name is known.
    FunctionIdentifierNotFound(String),
    /// A number was required; `actual` is what was there.
    ExpectedNumber { actual: Value },
    /// A truth value was required; `actual` is what was there.
    ExpectedBoolean { actual: Value },
    /// An index that is negative or not below the array's length, or an
    /// index into something that is no array.
    IndexOutOfBounds,
    /// A field that the value does not have.
    FieldNotFound(String),
    /// An integer division or remainder by zero.
    DivisionByZero,
}

impl View for Error {
    type V = SpecError;

    open spec fn view(&self) -> SpecError {
        match self {
            Error::UnmatchedQuote => SpecError::UnmatchedQuote,
            Error::UnexpectedCharacter { character, position } => SpecError::UnexpectedCharacter {
                character: *character,
                position: *position as int,
            },
            Error::UnexpectedToken(token) => SpecError::UnexpectedToken(token@),
            Error::MissingClosingBracket => SpecError::MissingClosingBracket,
            Error::MissingOperand => SpecError::MissingOperand,
            Error::WrongArgumentAmount { expected, actual } => SpecError::WrongArgumentAmount {
                expected: *expected as int,
                actual: *actual as int,
            },
            Error::AppendedToLeafNode => SpecError::AppendedToLeafNode,
            Error::VariableIdentifierNotFound(name) => SpecError::VariableIdentifierNotFound(name@),
            Error::FunctionIdentifierNotFound(name) => SpecError::FunctionIdentifierNotFound(name@),
            Error::ExpectedNumber { actual } => SpecError::ExpectedNumber { actual: actual@ },
            Error::ExpectedBoolean { actual } => SpecError::ExpectedBoolean { actual: actual@ },
            Error::IndexOutOfBounds => SpecError::IndexOutOfBounds,
            Error::FieldNotFound(name) => SpecError::FieldNotFound(name@),
            Error::DivisionByZero => SpecError::DivisionByZero,
        }
    }
}

impl Error {
    /// The failure of an operator or function that takes `expected`
    /// arguments and got `actual`.
    pub fn wrong_argument_amount(actual: usize, expected: usize) -> (e: Error)
        ensures
            e@ == (SpecError::WrongArgumentAmount { expected: expected as int, actual: actual as int }),
    {
        Error::WrongArgumentAmount { expected, actual }
    }

    /// The failure of an operation that needs a number and got `actual`.
    pub fn expected_number(actual: Value) -> (e: Error)
        ensures
            e@ == (SpecError::ExpectedNumber { actual: actual@ }),
    {
        Error::ExpectedNumber { actual }
    }

    /// The failure of an operation that needs a truth value and got
    /// `actual`.
    pub fn expected_boolean(actual: Value) -> (e: Error)
        ensures
            e@ == (SpecError::ExpectedBoolean { actual: actual@ }),
    {
        Error::ExpectedBoolean { actual }
    }
}

} // verus!
