//! The token vocabulary of the language.

use vstd::prelude::*;
use crate::spans::Span;

verus! {

/// What a token is. The set is closed.
#[derive(Clone, Copy, Debug, PartialEq, Eq, Structural)]
pub enum TokenKind {
    // keywords
    Var,
    Do,
    Loop,
    Func,
    True,
    False,
    And,
    Or,
    Not,
    // literals and names
    Str,
    Num,
    Identifier,
    // punctuation
    LParen,
    RParen,
    LBrace,
    RBrace,
    Comma,
    /// The end of a line: a newline or a semicolon.
    Eol,
    // operators
    Plus,
    Minus,
    Star,
    Slash,
    Percent,
    Equal,
    DoubleEqual,
    BangEqual,
    Greater,
    GreaterEqual,
    Lesser,
    LesserEqual,
    Ampersand,
    Pipe,
    Bang,
}

/// A token: its kind and the bytes of the source it was read from.
#[derive(Clone, Copy, Debug, PartialEq, Eq, Structural)]
pub struct Token {
    pub kind: TokenKind,
    pub span: Span,
}

// The bytes that the lexer tells apart.
pub const TAB: u8 = 0x09;
pub const NEWLINE: u8 = 0x0a;
pub const CARRIAGE_RETURN: u8 = 0x0d;
pub const SPACE: u8 = 0x20;
pub const BANG: u8 = 0x21;
pub const QUOTE: u8 = 0x22;
pub const PERCENT: u8 = 0x25;
pub const AMPERSAND: u8 = 0x26;
pub const LPAREN: u8 = 0x28;
pub const RPAREN: u8 = 0x29;
pub const STAR: u8 = 0x2a;
pub const PLUS: u8 = 0x2b;
pub const COMMA: u8 = 0x2c;
pub const MINUS: u8 = 0x2d;
pub const DOT: u8 = 0x2e;
pub const SLASH: u8 = 0x2f;
pub const SEMICOLON: u8 = 0x3b;
pub const LESSER: u8 = 0x3c;
pub const EQUAL: u8 = 0x3d;
pub const GREATER: u8 = 0x3e;
pub const UNDERSCORE: u8 = 0x5f;
pub const LBRACE: u8 = 0x7b;
pub const PIPE: u8 = 0x7c;
pub const RBRACE: u8 = 0x7d;

/// The spelling of a keyword, operator or punctuation mark, as bytes. The
/// kinds whose text varies (strings, numbers, identifiers, end of line)
/// have none.
pub open spec fn fixed_text(kind: TokenKind) -> Option<Seq<u8>> {
    match kind {
        TokenKind::Var => Some(seq![0x76u8, 0x61u8, 0x72u8]),
        TokenKind::Do => Some(seq![0x64u8, 0x6fu8]),
        TokenKind::Loop => Some(seq![0x6cu8, 0x6fu8, 0x6fu8, 0x70u8]),
        TokenKind::Func => Some(seq![0x66u8, 0x75u8, 0x6eu8, 0x63u8]),
        TokenKind::True => Some(seq![0x74u8, 0x72u8, 0x75u8, 0x65u8]),
        TokenKind::False => Some(seq![0x66u8, 0x61u8, 0x6cu8, 0x73u8, 0x65u8]),
        TokenKind::And => Some(seq![0x61u8, 0x6eu8, 0x64u8]),
        TokenKind::Or => Some(seq![0x6fu8, 0x72u8]),
        TokenKind::Not => Some(seq![0x6eu8, 0x6fu8, 0x74u8]),
        TokenKind::LParen => Some(seq![LPAREN]),
        TokenKind::RParen => Some(seq![RPAREN]),
        TokenKind::LBrace => Some(seq![LBRACE]),
        TokenKind::RBrace => Some(seq![RBRACE]),
        TokenKind::Comma => Some(seq![COMMA]),
        TokenKind::Plus => Some(seq![PLUS]),
        TokenKind::Minus => Some(seq![MINUS]),
        TokenKind::Star => Some(seq![STAR]),
        TokenKind::Slash => Some(seq![SLASH]),
        TokenKind::Percent => Some(seq![PERCENT]),
        TokenKind::Equal => Some(seq![EQUAL]),
        TokenKind::DoubleEqual => Some(seq![EQUAL, EQUAL]),
        TokenKind::BangEqual => Some(seq![BANG, EQUAL]),
        TokenKind::Greater => Some(seq![GREATER]),
        TokenKind::GreaterEqual => Some(seq![GREATER, EQUAL]),
        TokenKind::Lesser => Some(seq![LESSER]),
        TokenKind::LesserEqual => Some(seq![LESSER, EQUAL]),
        TokenKind::Ampersand => Some(seq![AMPERSAND]),
        TokenKind::Pipe => Some(seq![PIPE]),
        TokenKind::Bang => Some(seq![BANG]),
        TokenKind::Str | TokenKind::Num | TokenKind::Identifier | TokenKind::Eol => None,
    }
}

/// Whether the kind is one of the nine reserved words.
pub open spec fn is_keyword(kind: TokenKind) -> bool {
    kind is Var || kind is Do || kind is Loop || kind is Func || kind is True || kind is False
        || kind is And || kind is Or || kind is Not
}

} // verus!
