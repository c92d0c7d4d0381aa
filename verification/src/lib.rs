//! An interpreter for a small Lisp: a reader, a tail-call-optimised
//! evaluator over lexically scoped environments, and a printer.
//!
//! Every executable function carries a contract over the mathematical
//! model of the data it works on ([`common::Value`] for language values,
//! [`env::RuntimeV`] for the interpreter state).

pub mod common;
pub mod builtins;
pub mod env;
pub mod eval;
pub mod laws;
pub mod printer;
pub mod reader;
pub mod reader_laws;
pub mod repl;
pub mod state_laws;
pub mod text;
