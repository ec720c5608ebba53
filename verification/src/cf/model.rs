//! Continued-fraction evaluation model.

use vstd::prelude::*;
use crate::error::Error;

verus! {

/// Describes a finite continued-fraction evaluation.
///
/// The actual coefficients are supplied by a coefficient provider.
/// This model only stores the maximum number of coefficient levels
/// that should be evaluated.
#[derive(Clone, Copy, Debug, PartialEq, Eq, Structural, Hash)]
pub struct ContinuedFraction {
    depth: usize,
}

impl View for ContinuedFraction {
    type V = usize;

    /// The evaluation depth.
    closed spec fn view(&self) -> usize {
        self.depth
    }
}

impl ContinuedFraction {
    /// The model with evaluation depth `depth`.
    pub closed spec fn spec_new(depth: usize) -> ContinuedFraction {
        ContinuedFraction { depth }
    }
}

/// A model is determined by its depth.
pub broadcast proof fn lemma_fraction_view_of_new(depth: usize)
    ensures
        #[trigger] ContinuedFraction::spec_new(depth)@ == depth,
{
}

/// Rebuilding a model from its depth gives the model back.
pub broadcast proof fn lemma_fraction_new_of_view(fraction: ContinuedFraction)
    ensures
        ContinuedFraction::spec_new(#[trigger] fraction@) == fraction,
{
}

pub broadcast group group_fraction {
    lemma_fraction_view_of_new,
    lemma_fraction_new_of_view,
}

impl ContinuedFraction {
    pub fn new(depth: usize) -> (fraction: Self)
        ensures
            fraction == ContinuedFraction::spec_new(depth),
    {
        Self { depth }
    }

    pub fn depth(self) -> (depth: usize)
        ensures
            depth == self@,
    {
        self.depth
    }

    pub fn is_empty(self) -> (empty: bool)
        ensures
            empty == (self@ == 0),
    {
        self.depth == 0
    }

    /// A fraction needs at least one level to be evaluated.
    pub fn validate(self) -> (r: Result<(), Error>)
        ensures
            r == if self@ == 0 {
                Err(Error::InvalidDepth)
            } else {
                Ok(())
            },
    {
        if self.depth == 0 {
            Err(Error::InvalidDepth)
        } else {
            Ok(())
        }
    }

    /// Returns a new model using another evaluation depth.
    pub fn with_depth(self, depth: usize) -> (fraction: Self)
        ensures
            fraction == ContinuedFraction::spec_new(depth),
    {
        let mut fraction = self;
        fraction.depth = depth;
        fraction
    }

    /// Replaces the evaluation depth in place.
    pub fn set_depth(&mut self, depth: usize)
        ensures
            *final(self) == ContinuedFraction::spec_new(depth),
    {
        self.depth = depth;
    }
}

impl Default for ContinuedFraction {
    fn default() -> (fraction: Self)
        ensures
            fraction == ContinuedFraction::spec_new(0),
    {
        Self { depth: 0 }
    }
}

} // verus!
