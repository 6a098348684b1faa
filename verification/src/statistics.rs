//! Settings and results of statistical checking.
//!
//! Probabilities and bounds are fractions in millionths.

use vstd::prelude::*;
use crate::fraction::Fraction;

verus! {

/// The samples that a statistical check takes unless told otherwise.
pub const DEFAULT_MAX_SAMPLES: u32 = 10000;

/// The confidence level that a statistical check aims at unless told otherwise, in millionths: 0.95.
pub const DEFAULT_CONFIDENCE_MICROS: u64 = 950_000;

/// The error that a statistical check accepts unless told otherwise, in millionths: 0.05.
pub const DEFAULT_ERROR_BOUND_MICROS: u64 = 50_000;

/// The workers that a statistical check runs unless told otherwise.
pub const DEFAULT_WORKERS: usize = 4;

/// The depth to which a statistical check explores unless told otherwise.
pub const DEFAULT_MAX_DEPTH: u32 = 100;

#[derive(Clone, Copy, Debug, PartialEq, Eq, Structural)]
pub struct StatisticalConfig {
    pub max_samples: u32,
    pub confidence_level: Fraction,
    /// The largest error that is accepted.
    pub error_bound: Fraction,
    pub parallel_workers: usize,
    /// The depth at which exploration stops, if it is limited.
    pub max_depth: Option<u32>,
}

impl Default for StatisticalConfig {
    fn default() -> (c: Self)
        ensures
            c == (StatisticalConfig {
                max_samples: DEFAULT_MAX_SAMPLES,
                confidence_level: Fraction { micros: DEFAULT_CONFIDENCE_MICROS },
                error_bound: Fraction { micros: DEFAULT_ERROR_BOUND_MICROS },
                parallel_workers: DEFAULT_WORKERS,
                max_depth: Some(DEFAULT_MAX_DEPTH),
            }),
    {
        StatisticalConfig {
            max_samples: DEFAULT_MAX_SAMPLES,
            confidence_level: Fraction::from_micros(DEFAULT_CONFIDENCE_MICROS),
            error_bound: Fraction::from_micros(DEFAULT_ERROR_BOUND_MICROS),
            parallel_workers: DEFAULT_WORKERS,
            max_depth: Some(DEFAULT_MAX_DEPTH),
        }
    }
}

#[derive(Clone, Copy, Debug)]
pub struct StatisticalResult {
    pub samples_taken: u32,
    pub property_satisfied_count: u32,
    pub estimated_probability: Fraction,
    /// The lower and the upper end of the confidence interval.
    pub confidence_interval: (Fraction, Fraction),
    pub convergence_achieved: bool,
}

#[derive(Clone, Copy, Debug, PartialEq, Eq, Structural)]
pub enum SamplingType {
    UniformRandom,
    ImportanceSampling,
    StratifiedSampling,
    AdaptiveSampling,
}

#[derive(Clone, Debug, PartialEq)]
pub struct SamplingStrategy {
    pub sampling_type: SamplingType,
    /// The weight of each named priority.
    pub priority_weights: Vec<(String, Fraction)>,
}

impl Default for SamplingStrategy {
    fn default() -> (s: Self)
        ensures
            s.sampling_type == SamplingType::UniformRandom,
            s.priority_weights@.len() == 0,
    {
        SamplingStrategy { sampling_type: SamplingType::UniformRandom, priority_weights: Vec::new() }
    }
}

} // verus!
