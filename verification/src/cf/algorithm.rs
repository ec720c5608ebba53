//! Continued-fraction evaluation algorithms.

use vstd::prelude::*;

verus! {

/// Algorithm used to evaluate a generalized continued fraction.
#[derive(Clone, Copy, Debug, Default, PartialEq, Eq, Structural, Hash)]
pub enum EvaluationAlgorithm {
    /// Evaluate the finite fraction from the deepest coefficient
    /// toward the initial term.
    #[default]
    Backward,
    /// Evaluate using the modified Lentz algorithm.
    Lentz,
}

} // verus!
