//! Evaluation of arithmetic text expressions (`+ - * /`, a leading sign and
//! three bracket styles) straight to a number of the caller's choice.
mod cursor;
mod evaluate;
pub mod grammar;
pub mod laws;
pub mod shape;
pub mod styles;
pub mod number;

pub use evaluate::{calculate, EvalError};
pub use grammar::ErrorKind;
pub use number::Number;
