//! Tokens, as the lexer hands them to the parser.

use vstd::prelude::*;
use crate::span::SourceSpan;

verus! {

/// Reserved words.
#[derive(Debug, Clone, Copy, PartialEq, Eq, Structural)]
pub enum Keyword {
    Module,
    Pub,
    Extern,
    Mut,
    Inline,
    Or,
    If,
    Else,
    Match,
    For,
    Break,
    Continue,
    Return,
    Defer,
    Comp,
    Use,
    Packed,
    Struct,
    Enum,
    Type,
}

/// Operator tokens.
#[derive(Debug, Clone, Copy, PartialEq, Eq, Structural)]
pub enum Operator {
    Colon,
    Equal,
    Dot,
    DotDot,
    DotDotEq,
    DotQuestion,
    DotBang,
    DotStar,
    FatArrow,
    Pipe,
    Plus,
    Minus,
    Star,
    Slash,
    Percent,
    Bang,
    Tilde,
    Ampersand,
    Caret,
    Question,
    LeftShift,
    RightShift,
    EqualEqual,
    BangEqual,
    Less,
    LessEqual,
    Greater,
    GreaterEqual,
    AndAnd,
    OrOr,
    PlusEqual,
    MinusEqual,
    StarEqual,
    SlashEqual,
    PercentEqual,
    AmpersandEqual,
    PipeEqual,
    CaretEqual,
    LeftShiftEqual,
    RightShiftEqual,
}

/// Brackets and separators.
#[derive(Debug, Clone, Copy, PartialEq, Eq, Structural)]
pub enum Delimiter {
    LParen,
    RParen,
    LBracket,
    RBracket,
    LBrace,
    RBrace,
    Comma,
    Semicolon,
}

/// The class of a token.
#[derive(Debug, Clone, Copy, PartialEq, Eq, Structural)]
pub enum TokenKind {
    Identifier,
    BuiltinIdentifier,
    IntLiteral,
    FloatLiteral,
    StringLiteral,
    CharLiteral,
    BoolLiteral(bool),
    NullLiteral,
    Keyword(Keyword),
    Operator(Operator),
    Delimiter(Delimiter),
    DocComment,
    Eof,
}

/// A token: its class, its source text and where it stands.
#[derive(Debug, Clone, PartialEq, Eq)]
pub struct Token {
    pub kind: TokenKind,
    pub lexeme: String,
    pub span: SourceSpan,
}

} // verus!
