//! Mathematical functions.

pub mod common;
pub mod exp;
pub mod ln;

pub use common::EvaluationConfig;
pub use exp::Exp;
pub use ln::Ln;
