//! Commonly used library exports.

pub use crate::cf::{
    Atanh, Coefficient, CoefficientProvider, ContinuedFraction, EvaluationAlgorithm, Evaluator,
    Lambert,
};

pub use crate::error::{Error, Result};

pub use crate::function::{EvaluationConfig, Exp, Ln};

pub use crate::number::{Fixed, Format, RoundingMode};

pub use crate::traits::{Evaluate, Function};
