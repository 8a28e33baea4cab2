//! Index plans for the discrete Fourier transform of arbitrary length.

pub mod bits;
pub mod bluestein;
pub mod convolution;
pub mod radix2;
pub mod transform;
