//! Deterministic fixed-point mathematics built on continued fractions.
//!
//! The crate provides:
//!
//! - a signed fixed-point numeric type with configurable binary formats
//!   and rounding;
//! - generalized continued-fraction infrastructure with backward and
//!   modified Lentz evaluation;
//! - Lambert and inverse hyperbolic tangent coefficient providers;
//! - configurable exponential and logarithm evaluators.

pub mod cf;
pub mod error;
pub mod function;
pub mod number;
pub mod traits;

pub mod prelude;

pub use error::{Error, Result};
pub use number::fixed::Fixed;
