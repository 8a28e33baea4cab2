//! Autocorrelation and its peaks.

pub mod acf;
