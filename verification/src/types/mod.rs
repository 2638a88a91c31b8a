//! The dimensional type system: the exponent algebra, the scoped type
//! environment, type errors and the checker.
pub mod dim;
pub mod env;
pub mod error;
pub mod checker;
