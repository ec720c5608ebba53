//! Generic evaluation trait.

use vstd::prelude::*;

verus! {

/// Evaluates a value.
///
/// The return type is intentionally generic so implementations may
/// return plain values, `Result<T>`, iterators, or other evaluation
/// products.
pub trait Evaluate<Output> {
    /// What [`Evaluate::evaluate`] returns.
    ///
    /// A type whose evaluation is verified defines it; the default names
    /// no particular value.
    open spec fn evaluation(&self) -> Output {
        arbitrary()
    }

    /// Evaluate the object.
    fn evaluate(&self) -> (output: Output)
        ensures
            output == self.evaluation(),
    ;
}

} // verus!
