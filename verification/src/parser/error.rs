use crate::lexer::{Error as LexerError, ErrorView as LexerErrorView};
use crate::span::Span;
use vstd::prelude::*;

verus! {

/// Why a text could not be read as a forest of nodes.
#[derive(Debug, PartialEq)]
pub enum ErrorKind {
    /// The lexer rejected a part of the text.
    Lexer(LexerError),
    /// A closing bracket where none is open.
    UnexpectedCloseBracket,
    /// The text ends while a bracket is open.
    UnclosedBracket,
    /// A closing bracket of the other kind than the one that is open.
    UnmatchedBracket,
    /// A state that the parser never reaches.
    Unreachable,
}

/// A kind of error with its texts as sequences of characters.
pub enum Fault {
    Lexer(LexerErrorView),
    UnexpectedCloseBracket,
    UnclosedBracket,
    UnmatchedBracket,
    Unreachable,
}

impl View for ErrorKind {
    type V = Fault;

    open spec fn view(&self) -> Fault {
        match self {
            ErrorKind::Lexer(e) => Fault::Lexer(e@),
            ErrorKind::UnexpectedCloseBracket => Fault::UnexpectedCloseBracket,
            ErrorKind::UnclosedBracket => Fault::UnclosedBracket,
            ErrorKind::UnmatchedBracket => Fault::UnmatchedBracket,
            ErrorKind::Unreachable => Fault::Unreachable,
        }
    }
}

impl Clone for ErrorKind {
    fn clone(&self) -> (r: Self)
        ensures
            r@ == self@,
    {
        match self {
            ErrorKind::Lexer(e) => ErrorKind::Lexer(e.clone()),
            ErrorKind::UnexpectedCloseBracket => ErrorKind::UnexpectedCloseBracket,
            ErrorKind::UnclosedBracket => ErrorKind::UnclosedBracket,
            ErrorKind::UnmatchedBracket => ErrorKind::UnmatchedBracket,
            ErrorKind::Unreachable => ErrorKind::Unreachable,
        }
    }
}

/// An error of the parser and the bytes of the source that it is about.
#[derive(Debug, PartialEq)]
pub struct Error {
    pub kind: ErrorKind,
    pub span: Span,
}

/// An error with its texts as sequences of characters.
pub struct ErrorView {
    pub kind: Fault,
    pub span: Span,
}

impl View for Error {
    type V = ErrorView;

    open spec fn view(&self) -> ErrorView {
        ErrorView { kind: self.kind@, span: self.span }
    }
}

impl Clone for Error {
    fn clone(&self) -> (r: Self)
        ensures
            r@ == self@,
    {
        Error { kind: self.kind.clone(), span: self.span.clone() }
    }
}

/// The error of the parser that wraps an error of the lexer: it is about
/// the same bytes.
pub open spec fn wrap(e: LexerErrorView) -> ErrorView {
    ErrorView { kind: Fault::Lexer(e), span: e.span }
}

/// The sentence that describes a fault.
pub open spec fn message(fault: Fault) -> Seq<char> {
    match fault {
        Fault::Lexer(e) => crate::lexer::error::message(e.kind),
        Fault::UnexpectedCloseBracket => "Unexpected closing bracket"@,
        Fault::UnclosedBracket => "Unclosed parenthesis"@,
        Fault::UnmatchedBracket => "Unmatched bracket"@,
        Fault::Unreachable => "Unexpected parsing state reached"@,
    }
}

impl Error {
    /// An error of the kind `kind` about the bytes `span`.
    pub fn new(kind: ErrorKind, span: Span) -> (r: Self)
        ensures
            r.kind == kind,
            r.span == span,
    {
        Self { kind, span }
    }

    /// Wraps an error of the lexer.
    pub fn from(e: LexerError) -> (r: Self)
        ensures
            r@ == wrap(e@),
    {
        let span = e.span.clone();
        Self::new(ErrorKind::Lexer(e), span)
    }

    /// Whether the text may become right when more is added at its end:
    /// a bracket, a string or a character is still open there.
    pub fn is_incomplete(&self) -> (r: bool)
        ensures
            r == match self.kind@ {
                Fault::UnclosedBracket => true,
                Fault::Lexer(e) => e.kind is UnclosedChar || e.kind is UnclosedString,
                _ => false,
            },
    {
        match &self.kind {
            ErrorKind::UnclosedBracket => true,
            ErrorKind::Lexer(e) => match &e.kind {
                crate::lexer::ErrorKind::UnclosedChar => true,
                crate::lexer::ErrorKind::UnclosedString => true,
                _ => false,
            },
            _ => false,
        }
    }

    /// The error as one sentence.
    pub fn to_string(&self) -> (r: String)
        ensures
            r@ == message(self.kind@),
    {
        match &self.kind {
            ErrorKind::Lexer(e) => e.to_string(),
            ErrorKind::UnexpectedCloseBracket => "Unexpected closing bracket".to_owned(),
            ErrorKind::UnclosedBracket => "Unclosed parenthesis".to_owned(),
            ErrorKind::UnmatchedBracket => "Unmatched bracket".to_owned(),
            ErrorKind::Unreachable => "Unexpected parsing state reached".to_owned(),
        }
    }
}

} // verus!
