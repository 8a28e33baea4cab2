//! Verified planning for parameter-free time-series smoothing.
//!
//! Everything here is integer logic: which samples a moving average reads, in
//! which order a Fourier transform combines its coefficients, which lags of an
//! autocorrelation count as peaks, and which window the search settles on.
//! The numeric kernels that add and multiply samples are driven by these plans
//! and live outside this crate.

pub mod fft;
pub mod smoothing;
pub mod statistics;
pub mod utils;
