//! The error surface of the crate: lexical errors carry the offending
//! character, structural errors report unbalanced brackets, and value errors
//! carry a message.

use crate::lexer::error::LexError;
use vstd::prelude::*;

verus! {

/// Every way an input can be rejected.
#[derive(Debug, Clone, PartialEq)]
pub enum Error {
    /// A free-form error message.
    Any(String),
    /// A malformed value, such as a numeric literal that does not parse or
    /// an unknown type name.
    ParsingError(String),
    /// An error from the exploratory lexer.
    LexingError(LexError),
    /// A character the tokenizer does not know.
    BadToken(char),
    /// Unbalanced or mismatched brackets.
    MismatchParams,
}

impl Error {
    /// Wrap a free-form message.
    pub fn any(s: String) -> (r: Self)
        ensures
            r == Error::Any(s),
    {
        Error::Any(s)
    }

    /// Wrap a value-error message.
    pub fn parsing_error(s: String) -> (r: Self)
        ensures
            r == Error::ParsingError(s),
    {
        Error::ParsingError(s)
    }

    /// Wrap a lexer error.
    pub fn lexing_error(e: LexError) -> (r: Self)
        ensures
            r == Error::LexingError(e),
    {
        Error::LexingError(e)
    }
}

} // verus!
