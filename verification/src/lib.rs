//! Fundamental-period estimation for monophonic audio with the YIN
//! algorithm, in exact integer arithmetic.
//!
//! A window of samples goes through three steps: the difference function
//! ([`difference`]), its cumulative mean normalization ([`cmndf`]) and the
//! threshold search with local refinement ([`search`]). The normalized values
//! are kept as exact ratios ([`ratio`]), so every comparison the search makes
//! is a comparison of rationals and nothing is rounded. [`estimator`] runs
//! the three steps on a window, on samples in either encoding ([`sample`]).
//! [`laws`] holds what is proved of the estimate for every window.

pub mod cmndf;
pub mod difference;
pub mod estimator;
pub mod laws;
pub mod ratio;
pub mod sample;
pub mod search;

pub use cmndf::{normalize, MAX_LAG_PAIRS};
pub use difference::{difference_function, MAX_WINDOW};
pub use estimator::{
    check_config, estimate, estimate_period, estimate_windows, yin, yin_centered, EstimateError,
    THRESHOLD_DEN, THRESHOLD_NUM,
};
pub use ratio::Ratio64;
pub use sample::{encode_window, offset_binary, Sample, BIAS, MAX_SQ_DIST};
pub use search::search;
