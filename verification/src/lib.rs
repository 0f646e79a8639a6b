//! A small interpreter for a Lisp/Scheme-family language: a reader that turns
//! S-expression text into values, and an evaluator that interprets those
//! values against a lexically scoped environment, producing values or
//! signaling errors from a closed set.
//!
//! The interpreter's primitive procedures are supplied by a registry, an
//! external collaborator reached through the [`eval::Registry`] trait: the
//! evaluator hands it the name carried by a primitive-procedure value and the
//! unevaluated operand list.  The pure base primitives live in [`builtin`];
//! a registry implementation dispatches names to them and supplies the
//! host-side ones (arithmetic and printing) itself.

pub mod builtin;
pub mod environment;
pub mod error;
pub mod eval;
pub mod number;
pub mod parse;
pub mod value;

pub use environment::Environment;
pub use error::Error;
pub use eval::eval;
pub use eval::eval_to_value;
pub use eval::Registry;
pub use number::Number;
pub use parse::parse;
pub use parse::parse_one;
pub use value::Value;
