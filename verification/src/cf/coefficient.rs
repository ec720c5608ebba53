//! Continued-fraction coefficient definitions.

use vstd::prelude::*;
use crate::error::Error;
use crate::number::fixed::{Fixed, group_fixed};

verus! {

broadcast use group_fixed;

/// Coefficients for one level of a generalized continued fraction.
///
/// A coefficient pair represents:
///
/// ```text
/// aₙ / (bₙ + ...)
/// ```
#[derive(Clone, Copy, Debug, PartialEq, Eq, Structural, Hash)]
pub struct Coefficient {
    numerator: Fixed,
    denominator: Fixed,
}

impl View for Coefficient {
    type V = (Fixed, Fixed);

    /// The pair `(aₙ, bₙ)`.
    closed spec fn view(&self) -> (Fixed, Fixed) {
        (self.numerator, self.denominator)
    }
}

impl Coefficient {
    /// The pair with numerator `numerator` and denominator `denominator`.
    pub closed spec fn spec_new(numerator: Fixed, denominator: Fixed) -> Coefficient {
        Coefficient { numerator, denominator }
    }
}

/// A pair is determined by its two parts.
pub broadcast proof fn lemma_coefficient_view_of_new(numerator: Fixed, denominator: Fixed)
    ensures
        #[trigger] Coefficient::spec_new(numerator, denominator)@ == (numerator, denominator),
{
}

/// Rebuilding a pair from its parts gives the pair back.
pub broadcast proof fn lemma_coefficient_new_of_view(coefficient: Coefficient)
    ensures
        Coefficient::spec_new((#[trigger] coefficient@).0, coefficient@.1) == coefficient,
{
}

pub broadcast group group_coefficient {
    lemma_coefficient_view_of_new,
    lemma_coefficient_new_of_view,
}

impl Coefficient {
    pub fn new(numerator: Fixed, denominator: Fixed) -> (coefficient: Self)
        ensures
            coefficient == Coefficient::spec_new(numerator, denominator),
    {
        Self { numerator, denominator }
    }

    pub fn numerator(self) -> (numerator: Fixed)
        ensures
            numerator == self@.0,
    {
        self.numerator
    }

    pub fn denominator(self) -> (denominator: Fixed)
        ensures
            denominator == self@.1,
    {
        self.denominator
    }

    pub fn into_parts(self) -> (parts: (Fixed, Fixed))
        ensures
            parts == self@,
    {
        (self.numerator, self.denominator)
    }
}

impl Default for Coefficient {
    fn default() -> (coefficient: Self)
        ensures
            coefficient@.0@ == 0,
            coefficient@.1@ == 0,
    {
        Self { numerator: Fixed::from_raw(0), denominator: Fixed::from_raw(0) }
    }
}

/// Produces coefficients for a generalized continued fraction.
///
/// Implementations may generate coefficients algorithmically instead
/// of storing every level in memory. The evaluator relies on the two
/// methods returning what the two spec functions describe.
pub trait CoefficientProvider {
    /// The initial denominator `b₀` that [`CoefficientProvider::initial`] returns.
    ///
    /// A provider whose methods are verified defines it; the default names
    /// no particular value.
    open spec fn initial_term(&self) -> Fixed {
        arbitrary()
    }

    /// What [`CoefficientProvider::coefficient`] returns for `index`.
    ///
    /// A provider whose methods are verified defines it; the default names
    /// no particular result.
    open spec fn coefficient_at(&self, index: int) -> Result<Coefficient, Error> {
        arbitrary()
    }

    /// Initial denominator `b₀`.
    fn initial(&self) -> (b0: Fixed)
        ensures
            b0 == self.initial_term(),
    ;

    /// Return the coefficient pair `(aₙ, bₙ)` for `index`.
    ///
    /// Indices begin at zero in the Rust API. Index zero therefore
    /// represents the mathematical pair `(a₁, b₁)`.
    fn coefficient(&self, index: usize) -> (r: Result<Coefficient, Error>)
        ensures
            r == self.coefficient_at(index as int),
    ;
}

} // verus!
