//! The template expression language: runtime values, operators, terms,
//! the lexer, and the recursive-descent expression parser and evaluator.

pub mod context;
pub mod error;
pub mod expression;
pub mod laws;
pub mod lexer;
pub mod op;
pub mod rational;
pub mod term;
pub mod value;

pub use context::Context;
pub use error::Error;
pub use expression::{Evaluate, Expression};
pub use op::Op;
pub use term::Term;
pub use value::Value;
