//! A small Lisp-family language interpreter.
//!
//! Source text is tokenized and parsed into a uniform tagged value
//! representation, which the evaluator interprets against a chain of
//! lexically nested scopes, yielding a result value or a structured
//! error. Interactive line editing, logging and process concerns stay
//! with the embedding driver: it feeds lines to [`repl::rep`] and
//! displays what comes back, and it supplies the floating-point
//! operations through [`floats::FloatOps`], since verified code holds
//! no float type.

pub mod builtin;
pub mod env;
pub mod error;
pub mod eval;
pub mod floats;
pub mod printer;
pub mod reader;
pub mod repl;
pub mod round_trip;
pub mod text;
pub mod types;

pub use error::{err, rerr, ErrType, MalErr};
pub use types::{Res, Val};
