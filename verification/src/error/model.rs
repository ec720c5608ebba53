//! Core error model.

use vstd::prelude::*;

verus! {

/// Result type used throughout the crate.
pub type Result<T> = core::result::Result<T, Error>;

/// Errors produced by numeric operations and function evaluation.
#[derive(Clone, Copy, Debug, PartialEq, Eq, Structural, Hash)]
pub enum Error {
    /// An arithmetic operation exceeded the supported integer range.
    Overflow,
    /// An arithmetic operation produced a value below the supported range.
    Underflow,
    /// Division by zero was requested.
    DivisionByZero,
    /// The input is outside the mathematical domain of a function.
    Domain,
    /// The requested fixed-point format is invalid.
    InvalidFormat,
    /// The requested evaluation depth is invalid.
    InvalidDepth,
    /// An iterative evaluation did not converge.
    NoConvergence,
    /// The requested operation has not been implemented yet.
    NotImplemented,
}

/// The human-readable text that describes each error.
pub open spec fn error_text(error: Error) -> Seq<char> {
    match error {
        Error::Overflow => "numeric overflow"@,
        Error::Underflow => "numeric underflow"@,
        Error::DivisionByZero => "division by zero"@,
        Error::Domain => "input outside function domain"@,
        Error::InvalidFormat => "invalid fixed-point format"@,
        Error::InvalidDepth => "invalid evaluation depth"@,
        Error::NoConvergence => "evaluation did not converge"@,
        Error::NotImplemented => "operation not implemented"@,
    }
}

impl Error {
    /// Returns a stable description of the error.
    pub fn message(self) -> (text: &'static str)
        ensures
            text@ == error_text(self),
    {
        match self {
            Error::Overflow => "numeric overflow",
            Error::Underflow => "numeric underflow",
            Error::DivisionByZero => "division by zero",
            Error::Domain => "input outside function domain",
            Error::InvalidFormat => "invalid fixed-point format",
            Error::InvalidDepth => "invalid evaluation depth",
            Error::NoConvergence => "evaluation did not converge",
            Error::NotImplemented => "operation not implemented",
        }
    }
}

} // verus!
