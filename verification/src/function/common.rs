//! Shared mathematical-function configuration.

use vstd::prelude::*;
use crate::cf::algorithm::EvaluationAlgorithm;
use crate::number::format::Format;
use crate::number::rounding::RoundingMode;

verus! {

/// Arithmetic and convergence configuration shared by functions.
#[derive(Clone, Copy, Debug, PartialEq, Eq, Structural, Hash)]
pub struct EvaluationConfig {
    format: Format,
    rounding: RoundingMode,
    depth: usize,
    algorithm: EvaluationAlgorithm,
}

impl View for EvaluationConfig {
    type V = (Format, RoundingMode, usize, EvaluationAlgorithm);

    /// The format, the rounding, the continued-fraction depth and the algorithm.
    closed spec fn view(&self) -> (Format, RoundingMode, usize, EvaluationAlgorithm) {
        (self.format, self.rounding, self.depth, self.algorithm)
    }
}

impl EvaluationConfig {
    /// The configuration with the given parts.
    pub closed spec fn spec_new(
        format: Format,
        rounding: RoundingMode,
        depth: usize,
        algorithm: EvaluationAlgorithm,
    ) -> EvaluationConfig {
        EvaluationConfig { format, rounding, depth, algorithm }
    }
}

/// A configuration is determined by its parts.
pub broadcast proof fn lemma_config_view_of_new(
    format: Format,
    rounding: RoundingMode,
    depth: usize,
    algorithm: EvaluationAlgorithm,
)
    ensures
        #[trigger] EvaluationConfig::spec_new(format, rounding, depth, algorithm)@ == (
            format,
            rounding,
            depth,
            algorithm,
        ),
{
}

/// Rebuilding a configuration from its parts gives the configuration back.
pub broadcast proof fn lemma_config_new_of_view(config: EvaluationConfig)
    ensures
        EvaluationConfig::spec_new(
            (#[trigger] config@).0,
            config@.1,
            config@.2,
            config@.3,
        ) == config,
{
}

pub broadcast group group_config {
    lemma_config_view_of_new,
    lemma_config_new_of_view,
}

impl EvaluationConfig {
    /// Creates a function configuration.
    ///
    /// Backward continued-fraction evaluation is used by default.
    pub fn new(format: Format, rounding: RoundingMode, depth: usize) -> (config: Self)
        ensures
            config@ == (format, rounding, depth, EvaluationAlgorithm::Backward),
    {
        Self { format, rounding, depth, algorithm: EvaluationAlgorithm::Backward }
    }

    /// Creates an integer-format configuration.
    pub fn integer(depth: usize) -> (config: Self)
        ensures
            config@ == (Format::spec_new(0), RoundingMode::TowardZero, depth, EvaluationAlgorithm::Backward),
    {
        Self::new(Format::new(0), RoundingMode::TowardZero, depth)
    }

    /// Creates a binary fixed-point configuration using nearest rounding.
    pub fn binary(frac_bits: u32, depth: usize) -> (config: Self)
        requires
            frac_bits < 64,
        ensures
            config@ == (Format::spec_new(frac_bits), RoundingMode::Nearest, depth, EvaluationAlgorithm::Backward),
    {
        Self::new(Format::new(frac_bits), RoundingMode::Nearest, depth)
    }

    pub fn format(self) -> (format: Format)
        ensures
            format == self@.0,
    {
        self.format
    }

    pub fn rounding(self) -> (rounding: RoundingMode)
        ensures
            rounding == self@.1,
    {
        self.rounding
    }

    pub fn depth(self) -> (depth: usize)
        ensures
            depth == self@.2,
    {
        self.depth
    }

    pub fn algorithm(self) -> (algorithm: EvaluationAlgorithm)
        ensures
            algorithm == self@.3,
    {
        self.algorithm
    }

    pub fn with_format(self, format: Format) -> (config: Self)
        ensures
            config@ == (format, self@.1, self@.2, self@.3),
    {
        let mut config = self;
        config.format = format;
        config
    }

    pub fn with_rounding(self, rounding: RoundingMode) -> (config: Self)
        ensures
            config@ == (self@.0, rounding, self@.2, self@.3),
    {
        let mut config = self;
        config.rounding = rounding;
        config
    }

    pub fn with_depth(self, depth: usize) -> (config: Self)
        ensures
            config@ == (self@.0, self@.1, depth, self@.3),
    {
        let mut config = self;
        config.depth = depth;
        config
    }

    pub fn with_algorithm(self, algorithm: EvaluationAlgorithm) -> (config: Self)
        ensures
            config@ == (self@.0, self@.1, self@.2, algorithm),
    {
        let mut config = self;
        config.algorithm = algorithm;
        config
    }

    pub fn set_format(&mut self, format: Format)
        ensures
            final(self)@ == (format, old(self)@.1, old(self)@.2, old(self)@.3),
    {
        self.format = format;
    }

    pub fn set_rounding(&mut self, rounding: RoundingMode)
        ensures
            final(self)@ == (old(self)@.0, rounding, old(self)@.2, old(self)@.3),
    {
        self.rounding = rounding;
    }

    pub fn set_depth(&mut self, depth: usize)
        ensures
            final(self)@ == (old(self)@.0, old(self)@.1, depth, old(self)@.3),
    {
        self.depth = depth;
    }

    pub fn set_algorithm(&mut self, algorithm: EvaluationAlgorithm)
        ensures
            final(self)@ == (old(self)@.0, old(self)@.1, old(self)@.2, algorithm),
    {
        self.algorithm = algorithm;
    }
}

impl Default for EvaluationConfig {
    /// Q16 arithmetic, nearest rounding, sixteen levels, backward evaluation.
    fn default() -> (config: Self)
        ensures
            config@ == (Format::spec_new(16), RoundingMode::Nearest, 16usize, EvaluationAlgorithm::Backward),
    {
        Self::binary(16, 16)
    }
}

} // verus!
