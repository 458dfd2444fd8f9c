//! The evaluator: from nodes to values.

pub mod apply;
pub mod context;
pub mod error;
pub mod expr;
pub mod laws;
pub mod quote;
pub mod rules;
pub mod scope;
pub mod show;

pub use error::{Error, ErrorKind, ErrorView, Fault};
pub use context::Context;
pub use expr::{Builtin, BuiltinFn, Closure, Expr, UserFn, Value};
pub use scope::Scope;
pub use quote::quote;
