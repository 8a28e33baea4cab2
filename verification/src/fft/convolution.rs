//! Operand checks of the circular convolution.

use vstd::prelude::*;
use crate::fft::transform::FftError;

verus! {

/// The common length of the two operands of a real convolution.
pub fn real_operands(x_len: usize, y_len: usize) -> (r: Result<usize, FftError>)
    ensures
        match r {
            Ok(n) => n == x_len && n == y_len,
            Err(e) => x_len != y_len && e == FftError::LengthMismatch,
        },
{
    if x_len != y_len {
        Err(FftError::LengthMismatch)
    } else {
        Ok(x_len)
    }
}

/// The common length of the operands and outputs of a complex convolution:
/// real and imaginary parts of `x`, of `y` and of the result.
pub fn complex_operands(
    xreal_len: usize,
    ximag_len: usize,
    yreal_len: usize,
    yimag_len: usize,
    outreal_len: usize,
    outimag_len: usize,
) -> (r: Result<usize, FftError>)
    ensures
        match r {
            Ok(n) => {
                &&& n == xreal_len
                &&& n == ximag_len
                &&& n == yreal_len
                &&& n == yimag_len
                &&& n == outreal_len
                &&& n == outimag_len
            },
            Err(e) => {
                &&& e == FftError::LengthMismatch
                &&& !(xreal_len == ximag_len && xreal_len == yreal_len && xreal_len == yimag_len
                    && xreal_len == outreal_len && xreal_len == outimag_len)
            },
        },
{
    let n = xreal_len;
    if n != ximag_len || n != yreal_len || n != yimag_len || n != outreal_len || n
        != outimag_len {
        Err(FftError::LengthMismatch)
    } else {
        Ok(n)
    }
}

} // verus!
