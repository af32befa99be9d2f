//! The token model: a kind tag, a lexeme slice borrowed from the source
//! buffer, and a 1-based source line number.

use crate::lexer::LexError;
use vstd::prelude::*;

verus! {

/// One token of source text. Immutable after creation; the lexeme borrows
/// from the source buffer.
#[derive(Debug, PartialEq, Clone, Copy)]
pub struct Token<'l> {
    pub typ: TokenType,
    pub lexeme: &'l str,
    pub line: usize,
}

impl<'l> Token<'l> {
    pub fn new(typ: TokenType, lexeme: &'l str, line: usize) -> (t: Token<'l>)
        ensures
            t.typ == typ,
            t.lexeme == lexeme,
            t.line == line,
    {
        Token { typ, lexeme, line }
    }
}

/// The closed set of token kinds. Trivia kinds (`Comment`, `Whitespace`,
/// `Newline`) exist for diagnostics and are filtered before the compiler.
/// Lexing errors are in-band as `Error` tokens.
#[derive(Debug, PartialEq, Clone, Copy, Structural)]
pub enum TokenType {
    // Single-character tokens.
    LeftParen,
    RightParen,
    LeftBrace,
    RightBrace,
    Comma,
    Dot,
    Minus,
    Plus,
    Semicolon,
    Slash,
    Star,
    // One or two character tokens.
    Bang,
    BangEqual,
    Equal,
    EqualEqual,
    Greater,
    GreaterEqual,
    Less,
    LessEqual,
    // Literals.
    Identifier,
    String,
    Number,
    // Keywords.
    And,
    Class,
    Else,
    False,
    For,
    Fun,
    If,
    Nil,
    Or,
    Print,
    Return,
    Super,
    This,
    True,
    Var,
    While,
    // Trivia.
    Comment,
    Whitespace,
    Newline,
    // End of input; returned repeatedly once the source is exhausted.
    Eof,
    // In-band lexing failure; the lexeme points at the offending input.
    Error(LexError),
}

} // verus!
