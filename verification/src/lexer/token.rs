//! Tokens of the exploratory statement-level language.

use vstd::prelude::*;

verus! {

/// One token of the statement-level language. Numeric literals with a
/// decimal point or an exponent keep their text: nothing downstream
/// consumes their value, and the text preserves it losslessly.
#[derive(Debug, Clone, PartialEq)]
pub enum Token {
    Illegal,
    Eof,
    If,
    Else,
    Elif,
    Return,
    For,
    While,
    Break,
    Continue,
    Struct,
    True,
    False,
    LBracket,
    RBracket,
    LParen,
    RParen,
    LSquirly,
    RSquirly,
    Eq,
    Ne,
    Lt,
    Lte,
    Gt,
    Gte,
    LogicAnd,
    LogicOr,
    Not,
    Add,
    AddAssign,
    Sub,
    SubAssign,
    Rem,
    RemAssign,
    Mul,
    MulAssign,
    Pow,
    PowAssign,
    Div,
    DivAssign,
    IDiv,
    IDivAssign,
    Shr,
    ShrAssign,
    Shl,
    ShlAssign,
    BitOr,
    BitOrAssign,
    BitAnd,
    BitAndAssign,
    BitXor,
    BitXorAssign,
    BitNotXor,
    BitNotXorAssign,
    Assign,
    Colon,
    DeclAssign,
    Decl,
    SemiColon,
    Dot,
    Range,
    RangeInc,
    Comma,
    Arrow,
    FatArrow,
    Comment,
    /// An integer literal.
    Int(u64),
    /// A floating literal, kept as its text.
    Float(String),
    /// An identifier.
    Ident(String),
    /// A string literal.
    Str(String),
}

impl Token {
    /// Wrap a name as an identifier token.
    pub fn ident(i: String) -> (r: Self)
        ensures
            r == Token::Ident(i),
    {
        Token::Ident(i)
    }
}

} // verus!
