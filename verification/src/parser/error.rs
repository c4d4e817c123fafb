//! Errors that can occur while parsing command output.

use vstd::prelude::*;

verus! {

/// Errors that can occur while parsing command output.
#[derive(Debug, Clone, PartialEq, Eq)]
pub enum ParseError {
    /// A required field or section was not found in the output.
    MissingField(&'static str),
    /// A value was found but could not be converted to the expected type.
    InvalidValue { field: &'static str, value: String },
    /// The overall shape of the input did not match what the parser expected.
    UnexpectedFormat(String),
    /// The input was empty when content was required.
    Empty,
}

pub type ParseResult<T> = Result<T, ParseError>;

} // verus!
