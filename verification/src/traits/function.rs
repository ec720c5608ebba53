//! Common interface for mathematical functions.

use vstd::prelude::*;
use crate::error::Error;
use crate::function::common::EvaluationConfig;
use crate::number::fixed::Fixed;

verus! {

/// Interface implemented by mathematical functions.
///
/// The two spec functions describe what the methods return; `eval`
/// returns what `evaluate` returns.
pub trait Function {
    /// The configuration that [`Function::config`] returns.
    ///
    /// A function whose methods are verified defines it; the default names
    /// no particular configuration.
    open spec fn configuration(&self) -> EvaluationConfig {
        arbitrary()
    }

    /// What [`Function::evaluate`] returns for `x`.
    ///
    /// A function whose methods are verified defines it; the default names
    /// no particular result.
    open spec fn value_at(&self, x: Fixed) -> Result<Fixed, Error> {
        arbitrary()
    }

    /// Returns the configuration used by this function.
    fn config(&self) -> (config: EvaluationConfig)
        ensures
            config == self.configuration(),
    ;

    /// Evaluates the function.
    fn evaluate(&self, x: Fixed) -> (r: Result<Fixed, Error>)
        ensures
            r == self.value_at(x),
    ;

    /// Convenience alias of [`Function::evaluate`].
    fn eval(&self, x: Fixed) -> (r: Result<Fixed, Error>)
        ensures
            r == self.value_at(x),
    {
        self.evaluate(x)
    }
}

} // verus!
