use super::symbol::Symbol;
use crate::span::Span;
use vstd::prelude::*;

verus! {

/// What a token is.
#[derive(Debug, PartialEq)]
pub enum TokenKind {
    OpenParen,
    CloseParen,
    OpenBracket,
    CloseBracket,
    Comment(String),
    Symbol(Symbol),
    /// A number, as the bit pattern of a 64-bit binary floating-point number.
    Number(u64),
    Bool(bool),
    String(String),
    Char(char),
    Keyword(Symbol),
    Nil,
}

/// A token kind with its texts as sequences of characters.
pub enum Lexeme {
    OpenParen,
    CloseParen,
    OpenBracket,
    CloseBracket,
    Comment(Seq<char>),
    Symbol(Seq<char>),
    Number(u64),
    Bool(bool),
    String(Seq<char>),
    Char(char),
    Keyword(Seq<char>),
    Nil,
}

impl View for TokenKind {
    type V = Lexeme;

    open spec fn view(&self) -> Lexeme {
        match self {
            TokenKind::OpenParen => Lexeme::OpenParen,
            TokenKind::CloseParen => Lexeme::CloseParen,
            TokenKind::OpenBracket => Lexeme::OpenBracket,
            TokenKind::CloseBracket => Lexeme::CloseBracket,
            TokenKind::Comment(s) => Lexeme::Comment(s@),
            TokenKind::Symbol(s) => Lexeme::Symbol(s@),
            TokenKind::Number(n) => Lexeme::Number(*n),
            TokenKind::Bool(b) => Lexeme::Bool(*b),
            TokenKind::String(s) => Lexeme::String(s@),
            TokenKind::Char(c) => Lexeme::Char(*c),
            TokenKind::Keyword(s) => Lexeme::Keyword(s@),
            TokenKind::Nil => Lexeme::Nil,
        }
    }
}

impl Clone for TokenKind {
    fn clone(&self) -> (r: Self)
        ensures
            r@ == self@,
    {
        match self {
            TokenKind::OpenParen => TokenKind::OpenParen,
            TokenKind::CloseParen => TokenKind::CloseParen,
            TokenKind::OpenBracket => TokenKind::OpenBracket,
            TokenKind::CloseBracket => TokenKind::CloseBracket,
            TokenKind::Comment(s) => TokenKind::Comment(s.clone()),
            TokenKind::Symbol(s) => TokenKind::Symbol(s.clone()),
            TokenKind::Number(n) => TokenKind::Number(*n),
            TokenKind::Bool(b) => TokenKind::Bool(*b),
            TokenKind::String(s) => TokenKind::String(s.clone()),
            TokenKind::Char(c) => TokenKind::Char(*c),
            TokenKind::Keyword(s) => TokenKind::Keyword(s.clone()),
            TokenKind::Nil => TokenKind::Nil,
        }
    }
}

/// A token and the bytes of the source that it covers.
#[derive(Debug, PartialEq)]
pub struct Token {
    pub kind: TokenKind,
    pub span: Span,
}

/// A token with its texts as sequences of characters.
pub struct TokenView {
    pub kind: Lexeme,
    pub span: Span,
}

impl View for Token {
    type V = TokenView;

    open spec fn view(&self) -> TokenView {
        TokenView { kind: self.kind@, span: self.span }
    }
}

impl Clone for Token {
    fn clone(&self) -> (r: Self)
        ensures
            r@ == self@,
    {
        Token { kind: self.kind.clone(), span: self.span.clone() }
    }
}

impl Token {
    /// A token of the kind `kind` that covers the bytes `span`.
    pub fn new(kind: TokenKind, span: Span) -> (r: Self)
        ensures
            r.kind == kind,
            r.span == span,
    {
        Self { kind, span }
    }
}

} // verus!
