//! The names that a program which embeds the language mostly needs.

pub use crate::eval::{Context, Error as EvalError, ErrorKind as EvalErrorKind, Expr};
pub use crate::highlighter::Highlighter;
pub use crate::host::Host;
pub use crate::lexer::{
    Error as LexerError, ErrorKind as LexerErrorKind, Lexer, Symbol, Token, TokenKind,
};
pub use crate::parser::{Error as ParserError, ErrorKind as ParserErrorKind, Node, NodeKind, Parser};
pub use crate::span::{Location, Source, Span};
