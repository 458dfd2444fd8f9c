//! A small Lisp: a lexer, a parser and an evaluator, each with a proved
//! contract that says what it computes.
//!
//! Text becomes tokens ([`lexer`]), tokens become a forest of nodes
//! ([`parser`]), and nodes become values ([`eval`]). Every token, node and
//! error knows the bytes of the source that it stands for ([`span`]).
//! Numbers are 64-bit binary floating-point numbers, carried as their bit
//! patterns; reading, writing and arithmetic on them is left to the
//! embedding program ([`host`]). For a front end there are colours for a
//! snippet of code ([`highlighter`]) and what a line editor needs to know
//! ([`editor`]).

pub mod editor;
pub mod eval;
pub mod highlighter;
pub mod host;
pub mod lexer;
pub mod number;
pub mod parser;
pub mod prelude;
pub mod span;
pub mod text;

pub use crate::eval::{Context, Error as EvalError, ErrorKind as EvalErrorKind, Expr};
pub use crate::highlighter::Highlighter;
pub use crate::host::Host;
pub use crate::lexer::{
    Error as LexerError, ErrorKind as LexerErrorKind, Lexer, Symbol, Token, TokenKind,
};
pub use crate::parser::{Error as ParserError, ErrorKind as ParserErrorKind, Node, NodeKind, Parser};
pub use crate::span::{Location, Source, Span};
