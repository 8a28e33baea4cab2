//! Choice of the algorithm that transforms a pair of coefficient sequences.

use vstd::prelude::*;
use vstd::arithmetic::power2::{lemma_pow2_strictly_increases, pow2};
use crate::fft::bits::{is_next_power_of_two, is_power_of_two, lemma_pow2_word, levels};
use crate::fft::bluestein::convolution_length;

verus! {

/// Why a transform or a convolution refuses its operands.
#[derive(Clone, Copy, Debug, PartialEq, Eq)]
pub enum FftError {
    /// The sequences handed in do not all have the same length.
    LengthMismatch,
}

/// How a pair of coefficient sequences of one length is transformed.
#[derive(Clone, Copy, Debug, PartialEq, Eq)]
pub enum Plan {
    /// Nothing to transform.
    Empty,
    /// The length is `2^levels`: permute, then run `levels` butterfly passes.
    Radix2 { levels: u32 },
    /// Any other length: a chirp convolution of `padded` coefficients.
    Bluestein { padded: usize },
}

/// What `plan` answers for sequences of `n` coefficients each.
pub open spec fn is_plan_for(n: nat, p: Plan) -> bool {
    match p {
        Plan::Empty => n == 0,
        Plan::Radix2 { levels } => levels < usize::BITS && n == pow2(levels as nat),
        Plan::Bluestein { padded } => {
            &&& n > 0
            &&& !is_power_of_two(n)
            &&& is_next_power_of_two(2 * n + 1, padded as nat)
        },
    }
}

/// Chooses the algorithm for a forward transform of real and imaginary
/// coefficients of the given lengths.
///
/// The two lengths must agree. The chirp convolution works on buffers of more
/// than twice the length, which have to fit the address space.
pub fn plan(real_len: usize, imag_len: usize) -> (r: Result<Plan, FftError>)
    requires
        real_len <= usize::MAX / 4,
    ensures
        match r {
            Ok(p) => real_len == imag_len && is_plan_for(real_len as nat, p),
            Err(e) => real_len != imag_len && e == FftError::LengthMismatch,
        },
{
    if real_len != imag_len {
        return Err(FftError::LengthMismatch);
    }
    if real_len == 0 {
        return Ok(Plan::Empty);
    }
    match levels(real_len) {
        Some(levels) => Ok(Plan::Radix2 { levels }),
        None => Ok(Plan::Bluestein { padded: convolution_length(real_len) }),
    }
}

/// The inverse transform is the forward transform with the two sequences
/// exchanged, so it is planned alike.
pub fn inverse_plan(real_len: usize, imag_len: usize) -> (r: Result<Plan, FftError>)
    requires
        imag_len <= usize::MAX / 4,
    ensures
        match r {
            Ok(p) => real_len == imag_len && is_plan_for(real_len as nat, p),
            Err(e) => real_len != imag_len && e == FftError::LengthMismatch,
        },
{
    plan(imag_len, real_len)
}

/// The convolution inside a chirp transform has a power of two for its
/// length, so the transforms it runs are radix-2 transforms: no chirp
/// transform ever starts another.
pub proof fn lemma_chirp_convolves_by_radix2(n: nat, padded: usize)
    requires
        is_plan_for(n, Plan::Bluestein { padded }),
    ensures
        exists|levels: u32| is_plan_for(padded as nat, Plan::Radix2 { levels }),
{
    let k = choose|k: nat| padded as nat == pow2(k);
    if k >= usize::BITS {
        lemma_pow2_word(usize::BITS as nat);
        if k > usize::BITS {
            lemma_pow2_strictly_increases(usize::BITS as nat, k);
        }
    }
    assert(is_plan_for(padded as nat, Plan::Radix2 { levels: k as u32 }));
}

} // verus!
