//! Bluestein's algorithm for lengths that are not a power of two: the length
//! of the convolution it runs, the phases of its chirp and the layout of its
//! buffers.

use vstd::prelude::*;
use vstd::arithmetic::div_mod::{lemma_add_mod_noop, lemma_small_mod};
use crate::fft::bits::{is_next_power_of_two, next_power_of_two};

verus! {

/// Length of the convolution that carries a transform of `n` coefficients:
/// the least power of two that is at least `2n + 1`.
pub fn convolution_length(n: usize) -> (m: usize)
    requires
        n <= usize::MAX / 4,
    ensures
        is_next_power_of_two(2 * n as nat + 1, m as nat),
{
    next_power_of_two(2 * n + 1)
}

/// Phase of the chirp at position `i` of a transform of `n` coefficients, in
/// units of `pi / n`. The square is reduced modulo `2n`, a full turn.
pub open spec fn chirp_phase(i: nat, n: nat) -> nat {
    (i * i) % (2 * n)
}

/// The chirp phases of positions `0..n`.
///
/// Each phase is reached from the one before by adding the next odd number,
/// so no square is ever formed.
pub fn chirp_phases(n: usize) -> (phases: Vec<usize>)
    requires
        n <= usize::MAX / 4,
    ensures
        phases@.len() == n,
        forall|i: int| 0 <= i < n ==> #[trigger] phases@[i] == chirp_phase(i as nat, n as nat),
{
    let mut phases: Vec<usize> = Vec::new();
    let mut i: usize = 0;
    let mut phase: usize = 0;
    proof {
        if n > 0 {
            lemma_small_mod(0, 2 * n as nat);
        }
    }
    while i < n
        invariant
            i <= n <= usize::MAX / 4,
            phases@.len() == i,
            i < n ==> phase == chirp_phase(i as nat, n as nat),
            forall|k: int| 0 <= k < i ==> #[trigger] phases@[k] == chirp_phase(k as nat, n as nat),
        decreases n - i,
    {
        phases.push(phase);
        proof {
            let m = 2 * n as int;
            let odd = 2 * i as int + 1;
            lemma_small_mod(odd as nat, m as nat);
            lemma_add_mod_noop(i * i, odd, m);
            assert((i + 1) * (i + 1) == i * i + odd) by (nonlinear_arith)
                requires
                    odd == 2 * i + 1,
            ;
        }
        phase = (phase + 2 * i + 1) % (2 * n);
        i = i + 1;
    }
    phases
}

/// Which entry of the chirp stands at position `j` of the convolution kernel
/// of length `m`, for a chirp of `n` entries: the kernel repeats the chirp
/// from its front and, mirrored, from its back, and is empty in between.
pub open spec fn kernel_source(n: nat, m: nat, j: nat) -> Option<nat> {
    if j < n {
        Some(j)
    } else if j < m && m - j < n {
        Some((m - j) as nat)
    } else {
        None
    }
}

/// Lays the convolution kernel out: `chirp` from position 0 upwards, and
/// again from position `m - 1` downwards starting with `chirp[1]`, `zero`
/// everywhere else.
pub fn chirp_kernel<T: Copy>(chirp: &Vec<T>, m: usize, zero: T) -> (kernel: Vec<T>)
    requires
        1 <= chirp@.len(),
        2 * chirp@.len() <= m + 1,
    ensures
        kernel@.len() == m,
        forall|j: int|
            0 <= j < m ==> #[trigger] kernel@[j] == (match kernel_source(
                chirp@.len(),
                m as nat,
                j as nat,
            ) {
                Some(i) => chirp@[i as int],
                None => zero,
            }),
{
    let n = chirp.len();
    let mut kernel: Vec<T> = Vec::new();
    let mut j: usize = 0;
    while j < m
        invariant
            j <= m,
            n == chirp@.len(),
            1 <= n,
            2 * n <= m + 1,
            kernel@.len() == j,
            forall|k: int|
                0 <= k < j ==> #[trigger] kernel@[k] == (match kernel_source(
                    n as nat,
                    m as nat,
                    k as nat,
                ) {
                    Some(i) => chirp@[i as int],
                    None => zero,
                }),
        decreases m - j,
    {
        if j < n {
            kernel.push(chirp[j]);
        } else if m - j < n {
            kernel.push(chirp[m - j]);
        } else {
            kernel.push(zero);
        }
        j = j + 1;
    }
    kernel
}

/// The kernel reads the same from both ends: positions `j` and `m - j` hold
/// the same chirp entry, or are both empty.
pub proof fn lemma_kernel_symmetric(n: nat, m: nat, j: nat)
    requires
        1 <= n,
        2 * n <= m + 1,
        0 < j < m,
    ensures
        kernel_source(n, m, j) == kernel_source(n, m, (m - j) as nat),
{
}

/// Extends `v` to `m` entries by appending `zero`.
pub fn zero_padded<T: Copy>(v: &Vec<T>, m: usize, zero: T) -> (padded: Vec<T>)
    requires
        v@.len() <= m,
    ensures
        padded@.len() == m,
        forall|j: int| 0 <= j < v@.len() ==> #[trigger] padded@[j] == v@[j],
        forall|j: int| v@.len() <= j < m ==> #[trigger] padded@[j] == zero,
{
    let n = v.len();
    let mut padded: Vec<T> = Vec::new();
    let mut j: usize = 0;
    while j < m
        invariant
            j <= m,
            n == v@.len(),
            n <= m,
            padded@.len() == j,
            forall|k: int| 0 <= k < j && k < n ==> #[trigger] padded@[k] == v@[k],
            forall|k: int| n <= k < j ==> #[trigger] padded@[k] == zero,
        decreases m - j,
    {
        if j < n {
            padded.push(v[j]);
        } else {
            padded.push(zero);
        }
        j = j + 1;
    }
    padded
}

} // verus!
