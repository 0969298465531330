//! The tokens that the lexer hands to the parser.
use vstd::prelude::*;

verus! {

/// A lexical token kind.
#[derive(Clone, Copy, PartialEq, Eq, Structural, Debug)]
pub enum Token {
    LParen,
    RParen,
    LBrace,
    RBrace,
    LBracket,
    RBracket,
    Comma,
    Semicolon,
    Colon,
    DoubleColon,
    Dot,
    Identifier,
    UnknownIntegerLiteral,
    StringLiteral,
    Underscore,
    If,
    Else,
    Let,
    As,
    Plus,
    Dash,
    Asterisk,
    FSlash,
    Modulo,
    Bang,
    And,
    Pipe,
    Caret,
    ShiftLeft,
    ShiftRight,
    Equals,
    LogicalOr,
    LogicalAnd,
    CmpEqual,
    CmpNotEqual,
    CmpLessThan,
    CmpGreaterThan,
    CmpLessThanOrEqual,
    CmpGreaterThanOrEqual,
}

} // verus!
