use super::expr::{Expr, Value};
use super::show::shown;
use crate::host::{is_function, Host};
use crate::lexer::Symbol;
use crate::span::Span;
use vstd::prelude::*;
use vstd::string::StringExecFns;

verus! {

/// Why a node could not be evaluated.
#[derive(Debug, PartialEq)]
pub enum ErrorKind {
    UnknownSymbol(Symbol),
    MissingArguments,
    TooManyArguments,
    InvalidFunction(Expr),
    InvalidArgument(Expr),
    /// Lists are nested, or functions call each other, deeper than the
    /// context allows.
    RecursionLimit,
}

/// A kind of error with its texts and values as sequences.
pub enum Fault {
    UnknownSymbol(Seq<char>),
    MissingArguments,
    TooManyArguments,
    InvalidFunction(Value),
    InvalidArgument(Value),
    RecursionLimit,
}

impl View for ErrorKind {
    type V = Fault;

    open spec fn view(&self) -> Fault {
        match self {
            ErrorKind::UnknownSymbol(s) => Fault::UnknownSymbol(s@),
            ErrorKind::MissingArguments => Fault::MissingArguments,
            ErrorKind::TooManyArguments => Fault::TooManyArguments,
            ErrorKind::InvalidFunction(v) => Fault::InvalidFunction(v@),
            ErrorKind::InvalidArgument(v) => Fault::InvalidArgument(v@),
            ErrorKind::RecursionLimit => Fault::RecursionLimit,
        }
    }
}

impl Clone for ErrorKind {
    fn clone(&self) -> (r: Self)
        ensures
            r@ == self@,
    {
        match self {
            ErrorKind::UnknownSymbol(s) => ErrorKind::UnknownSymbol(s.clone()),
            ErrorKind::MissingArguments => ErrorKind::MissingArguments,
            ErrorKind::TooManyArguments => ErrorKind::TooManyArguments,
            ErrorKind::InvalidFunction(v) => ErrorKind::InvalidFunction(v.clone()),
            ErrorKind::InvalidArgument(v) => ErrorKind::InvalidArgument(v.clone()),
            ErrorKind::RecursionLimit => ErrorKind::RecursionLimit,
        }
    }
}

/// An error of the evaluator and the bytes of the source that it is about.
#[derive(Debug, PartialEq)]
pub struct Error {
    pub kind: ErrorKind,
    pub span: Span,
}

/// An error with its texts and values as sequences.
pub struct ErrorView {
    pub kind: Fault,
    pub span: Span,
}

impl View for Error {
    type V = ErrorView;

    open spec fn view(&self) -> ErrorView {
        ErrorView { kind: self.kind@, span: self.span }
    }
}

impl Clone for Error {
    fn clone(&self) -> (r: Self)
        ensures
            r@ == self@,
    {
        Error { kind: self.kind.clone(), span: self.span.clone() }
    }
}

/// The sentence that describes a fault.
pub open spec fn message<H: Host>(host: &H, fault: Fault) -> Seq<char> {
    match fault {
        Fault::UnknownSymbol(s) => "Could not resolve symbol '"@ + s + "' in scope"@,
        Fault::MissingArguments => "Function is missing arguments"@,
        Fault::TooManyArguments => "Function has extra arguments"@,
        Fault::InvalidFunction(v) => "`"@ + shown(host, v) + "` is not a function"@,
        Fault::InvalidArgument(v) => "`"@ + shown(host, v)
            + "` is not a valid argument for this function"@,
        Fault::RecursionLimit => "Evaluation is nested too deeply"@,
    }
}

impl Error {
    /// An error of the kind `kind` about the bytes `span`.
    pub fn new(kind: ErrorKind, span: Span) -> (r: Self)
        ensures
            r.kind == kind,
            r.span == span,
    {
        Self { kind, span }
    }

    /// The error as one sentence.
    pub fn to_string<H: Host>(&self, host: &H) -> (r: String)
        ensures
            is_function(host) ==> r@ == message(host, self.kind@),
    {
        match &self.kind {
            ErrorKind::UnknownSymbol(s) => {
                let mut out = "Could not resolve symbol '".to_owned();
                out.append(s.0.as_str());
                out.append("' in scope");
                out
            },
            ErrorKind::MissingArguments => "Function is missing arguments".to_owned(),
            ErrorKind::TooManyArguments => "Function has extra arguments".to_owned(),
            ErrorKind::InvalidFunction(v) => {
                let mut out = "`".to_owned();
                out.append(v.to_string(host).as_str());
                out.append("` is not a function");
                out
            },
            ErrorKind::InvalidArgument(v) => {
                let mut out = "`".to_owned();
                out.append(v.to_string(host).as_str());
                out.append("` is not a valid argument for this function");
                out
            },
            ErrorKind::RecursionLimit => "Evaluation is nested too deeply".to_owned(),
        }
    }
}

} // verus!
