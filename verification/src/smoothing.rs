//! The moving average and the search for its window.

pub mod adaptive_smoothing;
pub mod sma;
