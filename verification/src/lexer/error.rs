//! Errors of the exploratory lexer, with the location they were found at.

use crate::location::Loc;
use vstd::prelude::*;

verus! {

/// What went wrong while lexing.
#[derive(Debug, Clone, PartialEq)]
pub enum LexErrorKind {
    /// A free-form message.
    Any(String),
    /// A short string literal missing its closing quote.
    UnfinishedShortString(char),
    /// A character no token starts with.
    UnexpectedCharacter(char),
    /// A hexadecimal digit was needed.
    HexDigitExpected,
    /// A unicode escape missing its opening brace.
    EscapeUnicodeStart,
    /// A unicode escape missing its closing brace.
    EscapeUnicodeEnd,
    /// A unicode escape naming no character.
    EscapeUnicodeInvalid,
    /// A decimal escape beyond one byte.
    EscapeDecimalTooLarge,
    /// An escape sequence the lexer does not know.
    InvalidEscape,
    /// A long string literal with a malformed delimiter.
    InvalidLongStringDelimiter,
    /// A long string literal missing its end.
    UnfinishedLongString,
    /// A malformed integer literal, with a message.
    InvalidNumberInt(String),
    /// A malformed floating literal, with a message.
    InvalidNumberFloat(String),
}

/// A lexer error: its kind and where it happened.
#[derive(Debug, Clone, PartialEq)]
pub struct LexError {
    /// What went wrong.
    pub kind: LexErrorKind,
    /// Where it went wrong.
    pub loc: Loc,
}

impl LexError {
    /// Pair a kind with a location.
    pub fn new(kind: LexErrorKind, loc: Loc) -> (r: Self)
        ensures
            r.kind == kind,
            r.loc == loc,
    {
        LexError { kind, loc }
    }

    /// The same error, moved to another location.
    pub fn set_loc(self, loc: Loc) -> (r: Self)
        ensures
            r.kind == self.kind,
            r.loc == loc,
    {
        LexError { kind: self.kind, loc }
    }

    /// An unfinished short string, expecting the given closing quote.
    pub fn unfinished_short_string(s: char, loc: Loc) -> (r: Self)
        ensures
            r.kind == LexErrorKind::UnfinishedShortString(s),
            r.loc == loc,
    {
        LexError { kind: LexErrorKind::UnfinishedShortString(s), loc }
    }

    /// An unexpected character.
    pub fn unexpected_char(c: char, loc: Loc) -> (r: Self)
        ensures
            r.kind == LexErrorKind::UnexpectedCharacter(c),
            r.loc == loc,
    {
        LexError { kind: LexErrorKind::UnexpectedCharacter(c), loc }
    }

    /// A kind on its own, placed at the default location.
    pub fn from_kind(kind: LexErrorKind) -> (r: Self)
        ensures
            r.kind == kind,
            r.loc == (Loc { source: None, line: 0, col: 0 }),
    {
        LexError { kind, loc: Loc::new(0, 0) }
    }
}

} // verus!
