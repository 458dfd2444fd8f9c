use crate::span::Span;
use vstd::prelude::*;
use vstd::string::StringExecFns;

verus! {

/// Why a text could not be read as a token.
#[derive(Debug, PartialEq, Eq)]
pub enum ErrorKind {
    InvalidNumber(String),
    InvalidEscape(char),
    InvalidString,
    UnclosedString,
    InvalidChar,
    UnclosedChar,
}

/// A kind of error with its text as a sequence of characters.
pub enum Fault {
    InvalidNumber(Seq<char>),
    InvalidEscape(char),
    InvalidString,
    UnclosedString,
    InvalidChar,
    UnclosedChar,
}

impl View for ErrorKind {
    type V = Fault;

    open spec fn view(&self) -> Fault {
        match self {
            ErrorKind::InvalidNumber(s) => Fault::InvalidNumber(s@),
            ErrorKind::InvalidEscape(c) => Fault::InvalidEscape(*c),
            ErrorKind::InvalidString => Fault::InvalidString,
            ErrorKind::UnclosedString => Fault::UnclosedString,
            ErrorKind::InvalidChar => Fault::InvalidChar,
            ErrorKind::UnclosedChar => Fault::UnclosedChar,
        }
    }
}

impl Clone for ErrorKind {
    fn clone(&self) -> (r: Self)
        ensures
            r@ == self@,
    {
        match self {
            ErrorKind::InvalidNumber(s) => ErrorKind::InvalidNumber(s.clone()),
            ErrorKind::InvalidEscape(c) => ErrorKind::InvalidEscape(*c),
            ErrorKind::InvalidString => ErrorKind::InvalidString,
            ErrorKind::UnclosedString => ErrorKind::UnclosedString,
            ErrorKind::InvalidChar => ErrorKind::InvalidChar,
            ErrorKind::UnclosedChar => ErrorKind::UnclosedChar,
        }
    }
}

/// An error of the lexer and the bytes of the source that it is about.
#[derive(Debug, PartialEq)]
pub struct Error {
    pub kind: ErrorKind,
    pub span: Span,
}

/// An error with its text as a sequence of characters.
pub struct ErrorView {
    pub kind: Fault,
    pub span: Span,
}

impl View for Error {
    type V = ErrorView;

    open spec fn view(&self) -> ErrorView {
        ErrorView { kind: self.kind@, span: self.span }
    }
}

impl Clone for Error {
    fn clone(&self) -> (r: Self)
        ensures
            r@ == self@,
    {
        Error { kind: self.kind.clone(), span: self.span.clone() }
    }
}

/// The sentence that describes a fault.
pub open spec fn message(fault: Fault) -> Seq<char> {
    match fault {
        Fault::InvalidNumber(n) => "`"@ + n + "` is not a valid numeric literal"@,
        Fault::InvalidEscape(c) => "Unknown escape sequence `\\"@.push(c) + "` in string"@,
        Fault::InvalidString => "Invalid string literal"@,
        Fault::UnclosedString => "Unclosed string literal"@,
        Fault::InvalidChar => "Invalid character literal"@,
        Fault::UnclosedChar => "Unclosed character literal"@,
    }
}

impl Error {
    /// An error of the kind `kind` about the bytes `span`.
    pub fn new(kind: ErrorKind, span: Span) -> (r: Self)
        ensures
            r.kind == kind,
            r.span == span,
    {
        Self { kind, span }
    }

    /// The error as one sentence.
    pub fn to_string(&self) -> (r: String)
        ensures
            r@ == message(self.kind@),
    {
        match &self.kind {
            ErrorKind::InvalidNumber(n) => {
                let mut s = "`".to_owned();
                s.append(n.as_str());
                s.append("` is not a valid numeric literal");
                s
            },
            ErrorKind::InvalidEscape(c) => {
                let mut s = "Unknown escape sequence `\\".to_owned();
                s.push(*c);
                s.append("` in string");
                s
            },
            ErrorKind::InvalidString => "Invalid string literal".to_owned(),
            ErrorKind::UnclosedString => "Unclosed string literal".to_owned(),
            ErrorKind::InvalidChar => "Invalid character literal".to_owned(),
            ErrorKind::UnclosedChar => "Unclosed character literal".to_owned(),
        }
    }
}

} // verus!
