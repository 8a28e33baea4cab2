//! Powers of two and bit reversal.

use vstd::prelude::*;
use vstd::arithmetic::div_mod::{lemma_fundamental_div_mod_converse, lemma_small_mod};
use vstd::arithmetic::power2::{
    lemma2_to64, lemma2_to64_rest, lemma_pow2_pos, lemma_pow2_strictly_increases,
    lemma_pow2_unfold, pow2,
};
use vstd::bits::lemma_usize_shl_is_mul;

verus! {

/// `n` is `2^k` for some `k`.
pub open spec fn is_power_of_two(n: nat) -> bool {
    exists|k: nat| n == pow2(k)
}

/// The number whose lowest `bits` binary digits are those of `x` in the
/// opposite order: digit 0 of `x` becomes digit `bits - 1`, and so on.
/// Digits of `x` from position `bits` upwards play no part.
pub open spec fn reversed(x: nat, bits: nat) -> nat
    decreases bits,
{
    if bits == 0 {
        0
    } else {
        (x % 2) * pow2((bits - 1) as nat) + reversed(x / 2, (bits - 1) as nat)
    }
}

/// The count of values a `usize` can hold.
pub open spec fn word_modulus() -> nat {
    usize::MAX as nat + 1
}

/// `2^k` as a machine word, for an exponent that fits.
pub fn power_of_two(k: u32) -> (p: usize)
    requires
        k < usize::BITS,
    ensures
        p == pow2(k as nat),
{
    proof {
        lemma_pow2_fits(k as nat);
        lemma_usize_shl_is_mul(1usize, k as usize);
    }
    1usize << (k as usize)
}

/// Reverses the lowest `bits` binary digits of `x`.
///
/// A word holds `usize::BITS` digits, so no more than that can be reversed.
pub fn reverse_bits(x: usize, bits: u32) -> (y: usize)
    requires
        bits <= usize::BITS,
    ensures
        y == reversed(x as nat, bits as nat),
{
    let ghost whole = reversed(x as nat, bits as nat);
    let mut rest: usize = x;
    let mut y: usize = 0;
    let mut done: u32 = 0;
    proof {
        lemma_pow2_pos(0);
    }
    while done < bits
        invariant
            done <= bits <= usize::BITS,
            y < pow2(done as nat),
            whole == y * pow2((bits - done) as nat) + reversed(rest as nat, (bits - done) as nat),
        decreases bits - done,
    {
        let low: usize = rest & 1;
        proof {
            lemma_pow2_unfold(1);
            lemma_pow2_unfold((done + 1) as nat);
            lemma_pow2_word((done + 1) as nat);
            assert(pow2(0) == 1) by {
                lemma2_to64();
            }
            lemma_usize_shl_is_mul(y, 1);
        }
        let shifted: usize = y << 1;
        let next: usize = shifted | low;
        proof {
            let left = (bits - done) as nat;
            let p = pow2((left - 1) as nat);
            assert(low == rest % 2) by (bit_vector)
                requires
                    low == rest & 1,
            ;
            assert(rest >> 1 == rest / 2) by (bit_vector);
            assert(next == shifted + low) by (bit_vector)
                requires
                    next == shifted | low,
                    shifted % 2 == 0,
                    low <= 1,
            ;
            lemma_pow2_unfold(left);
            assert(y * (2 * p) + low * p == (2 * y + low) * p) by (nonlinear_arith);
        }
        y = next;
        rest = rest >> 1;
        done = done + 1;
    }
    proof {
        assert(pow2(0) == 1) by {
            lemma2_to64();
        }
        assert(y * 1 == y) by (nonlinear_arith);
    }
    y
}

/// The exponent of `n`, where `n` is a power of two.
pub fn levels(n: usize) -> (r: Option<u32>)
    ensures
        match r {
            Some(k) => k < usize::BITS && n == pow2(k as nat),
            None => !is_power_of_two(n as nat),
        },
{
    let mut k: u32 = 0;
    while k < usize::BITS
        invariant
            k <= usize::BITS,
            forall|j: nat| j < k ==> n != pow2(j),
        decreases usize::BITS - k,
    {
        if power_of_two(k) == n {
            return Some(k);
        }
        k = k + 1;
    }
    proof {
        assert forall|j: nat| n != pow2(j) by {
            if j >= usize::BITS {
                lemma_pow2_word(usize::BITS as nat);
                if j > usize::BITS {
                    lemma_pow2_strictly_increases(usize::BITS as nat, j);
                }
            }
        }
    }
    None
}

/// `m` is the least power of two that is not below `n`.
pub open spec fn is_next_power_of_two(n: nat, m: nat) -> bool {
    &&& is_power_of_two(m)
    &&& n <= m
    &&& forall|k: nat| n <= pow2(k) ==> m <= #[trigger] pow2(k)
}

/// The least power of two that is not below `n`; 1 for `n == 0`.
///
/// The largest power of two in a word is `usize::MAX / 2 + 1`, so `n` must
/// not exceed it.
pub fn next_power_of_two(n: usize) -> (m: usize)
    requires
        n <= usize::MAX / 2 + 1,
    ensures
        is_next_power_of_two(n as nat, m as nat),
{
    let mut m: usize = 1;
    let ghost mut e: nat = 0;
    proof {
        lemma2_to64();
    }
    while m < n
        invariant
            n <= usize::MAX / 2 + 1,
            1 <= m,
            m == pow2(e),
            e == 0 || pow2((e - 1) as nat) < n,
        decreases
            (if m < n {
                n - m
            } else {
                0
            }),
    {
        proof {
            lemma_pow2_unfold(e + 1);
            e = e + 1;
        }
        m = m * 2;
    }
    proof {
        assert forall|k: nat| n <= pow2(k) implies m <= #[trigger] pow2(k) by {
            if k < e {
                if k < e - 1 {
                    lemma_pow2_strictly_increases(k, (e - 1) as nat);
                }
            } else if k > e {
                lemma_pow2_strictly_increases(e, k);
            }
        }
    }
    m
}

/// `2^k` fits a word for every exponent below the word's width.
pub proof fn lemma_pow2_fits(k: nat)
    requires
        k < usize::BITS,
    ensures
        0 < pow2(k) <= usize::MAX / 2 + 1,
        1 * pow2(k) <= usize::MAX,
{
    lemma_pow2_pos(k);
    lemma_pow2_word(usize::BITS as nat);
    lemma_pow2_unfold(usize::BITS as nat);
    if k < usize::BITS - 1 {
        lemma_pow2_strictly_increases(k, (usize::BITS - 1) as nat);
    }
}

/// `2^k` stays within the number of values of a word up to the word's width,
/// and reaches it exactly there.
pub proof fn lemma_pow2_word(k: nat)
    requires
        k <= usize::BITS,
    ensures
        pow2(k) <= word_modulus(),
        k == usize::BITS ==> pow2(k) == word_modulus(),
{
    lemma2_to64();
    lemma2_to64_rest();
    if k < usize::BITS {
        lemma_pow2_strictly_increases(k, usize::BITS as nat);
    }
}

/// A reversal of `bits` digits has no digit at position `bits` or above.
pub proof fn lemma_reversed_bound(x: nat, bits: nat)
    ensures
        reversed(x, bits) < pow2(bits),
    decreases bits,
{
    if bits == 0 {
        lemma2_to64();
    } else {
        lemma_reversed_bound(x / 2, (bits - 1) as nat);
        lemma_pow2_unfold(bits);
        let p = pow2((bits - 1) as nat);
        assert((x % 2) * p <= p) by (nonlinear_arith)
            requires
                x % 2 <= 1,
        ;
    }
}

/// Reversal seen from the other end: the highest of the `bits` digits of `x`
/// becomes the lowest digit of the result.
pub proof fn lemma_reversed_from_top(x: nat, bits: nat)
    requires
        bits >= 1,
        x < pow2(bits),
    ensures
        reversed(x, bits) == 2 * reversed(x % pow2((bits - 1) as nat), (bits - 1) as nat) + x
            / pow2((bits - 1) as nat),
    decreases bits,
{
    let q = pow2((bits - 1) as nat);
    lemma_pow2_unfold(bits);
    lemma_pow2_pos((bits - 1) as nat);
    assert(reversed(x / 2, 0) == 0);
    assert(reversed(x % q, 0) == 0);
    if bits == 1 {
        assert(q == 1) by {
            lemma2_to64();
        }
        assert((x % 2) * q == x % 2) by (nonlinear_arith)
            requires
                q == 1,
        ;
    } else {
        let p = pow2((bits - 2) as nat);
        lemma_pow2_unfold((bits - 1) as nat);
        lemma_pow2_pos((bits - 2) as nat);
        lemma_reversed_from_top(x / 2, (bits - 1) as nat);
        if x < q {
            lemma_small_mod(x, q);
            lemma_fundamental_div_mod_converse(x as int, q as int, 0, x as int);
            lemma_small_mod(x / 2, p);
            lemma_fundamental_div_mod_converse((x / 2) as int, p as int, 0, (x / 2) as int);
        } else {
            lemma_fundamental_div_mod_converse(x as int, q as int, 1, x - q);
            lemma_fundamental_div_mod_converse((x / 2) as int, p as int, 1, x / 2 - p);
        }
        assert((x % q) % 2 == x % 2);
        assert((x % q) / 2 == (x / 2) % p);
        assert((x / 2) / p == x / q);
        let inner = reversed((x / 2) % p, (bits - 2) as nat);
        assert(reversed(x % q, (bits - 1) as nat) == (x % 2) * p + inner);
        assert(2 * ((x % 2) * p + inner) == (x % 2) * q + 2 * inner) by (nonlinear_arith)
            requires
                q == 2 * p,
        ;
    }
}

/// Reversing the same number of digits twice gives the number back.
pub proof fn lemma_reversed_involution(x: nat, bits: nat)
    requires
        x < pow2(bits),
    ensures
        reversed(reversed(x, bits), bits) == x,
    decreases bits,
{
    if bits == 0 {
        lemma2_to64();
    } else {
        let q = pow2((bits - 1) as nat);
        let low = x % 2;
        let tail = reversed(x / 2, (bits - 1) as nat);
        let r = reversed(x, bits);
        lemma_pow2_unfold(bits);
        lemma_pow2_pos((bits - 1) as nat);
        lemma_reversed_bound(x / 2, (bits - 1) as nat);
        lemma_reversed_bound(x, bits);
        lemma_reversed_involution(x / 2, (bits - 1) as nat);
        lemma_reversed_from_top(r, bits);
        assert(low * q == q * low) by (nonlinear_arith);
        lemma_fundamental_div_mod_converse(r as int, q as int, low as int, tail as int);
    }
}

} // verus!
