use vstd::prelude::*;
use crate::types::{Type, TypeV};

verus! {

/// One lexical unit of the language: keywords, type names, literals,
/// identifiers, punctuation and operators.  Whitespace and comments are never
/// tokenized.
#[derive(Debug, PartialEq, Eq)]
pub enum Token {
    If,
    Elif,
    Else,
    For,
    In,
    While,
    Function,
    Return,
    Let,
    Struct,
    Output,
    Assign,
    TypeName(Type),
    Int(i32),
    Bool(bool),
    Str(String),
    Var(String),
    LeftCurly,
    LeftBrace,
    LeftParen,
    RightCurly,
    RightBrace,
    RightParen,
    Dot,
    Comma,
    Colon,
    Semicolon,
    Minus,
    Plus,
    Divide,
    Multiply,
    Modulo,
    And,
    Or,
    Not,
    GreaterThan,
    LessThan,
    GreaterEqual,
    LessEqual,
    Equal,
    NotEqual,
}

/// Mathematical model of `Token`: payloads become character sequences and
/// unbounded integers.
pub ghost enum TokenV {
    If,
    Elif,
    Else,
    For,
    In,
    While,
    Function,
    Return,
    Let,
    Struct,
    Output,
    Assign,
    TypeName(TypeV),
    Int(int),
    Bool(bool),
    Str(Seq<char>),
    Var(Seq<char>),
    LeftCurly,
    LeftBrace,
    LeftParen,
    RightCurly,
    RightBrace,
    RightParen,
    Dot,
    Comma,
    Colon,
    Semicolon,
    Minus,
    Plus,
    Divide,
    Multiply,
    Modulo,
    And,
    Or,
    Not,
    GreaterThan,
    LessThan,
    GreaterEqual,
    LessEqual,
    Equal,
    NotEqual,
}

impl View for Token {
    type V = TokenV;

    open spec fn view(&self) -> TokenV {
        match self {
            Token::If => TokenV::If,
            Token::Elif => TokenV::Elif,
            Token::Else => TokenV::Else,
            Token::For => TokenV::For,
            Token::In => TokenV::In,
            Token::While => TokenV::While,
            Token::Function => TokenV::Function,
            Token::Return => TokenV::Return,
            Token::Let => TokenV::Let,
            Token::Struct => TokenV::Struct,
            Token::Output => TokenV::Output,
            Token::Assign => TokenV::Assign,
            Token::TypeName(t) => TokenV::TypeName(t@),
            Token::Int(n) => TokenV::Int(*n as int),
            Token::Bool(b) => TokenV::Bool(*b),
            Token::Str(s) => TokenV::Str(s@),
            Token::Var(s) => TokenV::Var(s@),
            Token::LeftCurly => TokenV::LeftCurly,
            Token::LeftBrace => TokenV::LeftBrace,
            Token::LeftParen => TokenV::LeftParen,
            Token::RightCurly => TokenV::RightCurly,
            Token::RightBrace => TokenV::RightBrace,
            Token::RightParen => TokenV::RightParen,
            Token::Dot => TokenV::Dot,
            Token::Comma => TokenV::Comma,
            Token::Colon => TokenV::Colon,
            Token::Semicolon => TokenV::Semicolon,
            Token::Minus => TokenV::Minus,
            Token::Plus => TokenV::Plus,
            Token::Divide => TokenV::Divide,
            Token::Multiply => TokenV::Multiply,
            Token::Modulo => TokenV::Modulo,
            Token::And => TokenV::And,
            Token::Or => TokenV::Or,
            Token::Not => TokenV::Not,
            Token::GreaterThan => TokenV::GreaterThan,
            Token::LessThan => TokenV::LessThan,
            Token::GreaterEqual => TokenV::GreaterEqual,
            Token::LessEqual => TokenV::LessEqual,
            Token::Equal => TokenV::Equal,
            Token::NotEqual => TokenV::NotEqual,
        }
    }
}

impl DeepView for Token {
    type V = TokenV;

    open spec fn deep_view(&self) -> TokenV {
        self.view()
    }
}

/// A failure of the lexing pass.  Lexing is total: every input either yields
/// a token sequence or exactly one of these errors.
#[derive(Debug, Clone, Copy, PartialEq, Eq, Structural)]
pub enum LexError {
    /// A string literal was opened with `"` but never closed.
    UnterminatedString,
    /// A character run matched neither the two-character nor the
    /// one-character symbol table.
    UnrecognizedSymbol,
}

} // verus!
