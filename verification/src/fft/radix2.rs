//! The radix-2 transform for lengths that are a power of two: the coefficient
//! permutation that opens it and the order of its butterflies.

use vstd::prelude::*;
use vstd::arithmetic::div_mod::{lemma_fundamental_div_mod, lemma_fundamental_div_mod_converse};
use vstd::arithmetic::power2::{
    lemma2_to64, lemma_pow2_adds, lemma_pow2_pos, lemma_pow2_unfold, pow2,
};
use crate::fft::bits::{
    lemma_pow2_fits, lemma_reversed_bound, lemma_reversed_involution, power_of_two, reverse_bits,
    reversed,
};

verus! {

/// The sequence that holds at each position the element of `s` whose
/// position has the same `levels` binary digits in the opposite order.
pub open spec fn bit_reversed<T>(s: Seq<T>, levels: nat) -> Seq<T> {
    Seq::new(s.len(), |i: int| s[reversed(i as nat, levels) as int])
}

/// Reversing the positions twice puts every element back.
pub proof fn lemma_bit_reversed_twice<T>(s: Seq<T>, levels: nat)
    requires
        s.len() == pow2(levels),
    ensures
        bit_reversed(bit_reversed(s, levels), levels) == s,
{
    assert forall|i: int| 0 <= i < s.len() implies bit_reversed(bit_reversed(s, levels), levels)[i]
        == s[i] by {
        lemma_reversed_bound(i as nat, levels);
        lemma_reversed_involution(i as nat, levels);
    }
    assert(bit_reversed(bit_reversed(s, levels), levels) =~= s);
}

/// Moves every element to the position whose `levels` binary digits are
/// those of its old position in the opposite order.
///
/// The transform applies this to the real and to the imaginary coefficients
/// before its first pass.
pub fn bit_reverse_permute<T: Copy>(v: &mut Vec<T>, levels: u32)
    requires
        levels < usize::BITS,
        old(v)@.len() == pow2(levels as nat),
    ensures
        final(v)@ == bit_reversed(old(v)@, levels as nat),
{
    let n = v.len();
    let ghost bits = levels as nat;
    proof {
        lemma_pow2_fits(bits);
        assert forall|a: nat| a < n implies reversed(a, bits) < n && reversed(
            #[trigger] reversed(a, bits),
            bits,
        ) == a by {
            lemma_reversed_bound(a, bits);
            lemma_reversed_involution(a, bits);
        }
    }
    let mut i: usize = 0;
    while i < n
        invariant
            i <= n,
            n == v@.len(),
            n == old(v)@.len(),
            levels < usize::BITS,
            bits == levels as nat,
            forall|a: nat|
                a < n ==> reversed(a, bits) < n && reversed(#[trigger] reversed(a, bits), bits)
                    == a,
            forall|a: int|
                0 <= a < n ==> #[trigger] v@[a] == (if a < i || reversed(a as nat, bits) < i {
                    old(v)@[reversed(a as nat, bits) as int]
                } else {
                    old(v)@[a]
                }),
        decreases n - i,
    {
        let j = reverse_bits(i, levels);
        assert(reversed(reversed(i as nat, bits), bits) == i);
        if j > i {
            let ghost before = v@;
            let first = v[i];
            let second = v[j];
            v.set(i, second);
            v.set(j, first);
            assert forall|a: int| 0 <= a < n implies #[trigger] v@[a] == (if a < i + 1 || reversed(
                a as nat,
                bits,
            ) < i + 1 {
                old(v)@[reversed(a as nat, bits) as int]
            } else {
                old(v)@[a]
            }) by {
                assert(reversed(reversed(a as nat, bits), bits) == a);
                assert(v@[a] == if a == j as int {
                    before[i as int]
                } else if a == i as int {
                    before[j as int]
                } else {
                    before[a]
                });
            }
        } else {
            assert forall|a: int| 0 <= a < n implies #[trigger] v@[a] == (if a < i + 1 || reversed(
                a as nat,
                bits,
            ) < i + 1 {
                old(v)@[reversed(a as nat, bits) as int]
            } else {
                old(v)@[a]
            }) by {
                assert(reversed(reversed(a as nat, bits), bits) == a);
            }
        }
        i = i + 1;
    }
    assert(v@ =~= bit_reversed(old(v)@, bits));
}

/// One butterfly of a pass: the positions of the two coefficients it
/// combines and the entry of the twiddle table that it multiplies by.
#[derive(Clone, Copy, Debug, PartialEq, Eq)]
pub struct Butterfly {
    pub upper: usize,
    pub lower: usize,
    pub twiddle: usize,
}

/// Position of the first coefficient of butterfly `t` in pass `pass`.
///
/// Pass `pass` works on blocks of `2^(pass+1)` coefficients and pairs each
/// coefficient of a block's first half with the one `2^pass` places after it.
/// Butterflies are counted block by block.
pub open spec fn upper_index(pass: nat, t: nat) -> nat {
    (t / pow2(pass)) * (2 * pow2(pass)) + t % pow2(pass)
}

/// Position of the second coefficient of butterfly `t` in pass `pass`.
pub open spec fn lower_index(pass: nat, t: nat) -> nat {
    upper_index(pass, t) + pow2(pass)
}

/// Entry of the twiddle table, which holds the angles `2*pi*k/n` for
/// `k < n/2`, used by butterfly `t` in pass `pass` of a transform of length `n`.
pub open spec fn twiddle_index(n: nat, pass: nat, t: nat) -> nat {
    (t % pow2(pass)) * (n / (2 * pow2(pass)))
}

/// The butterfly that follows butterfly `t` of pass `pass` in a transform of
/// `2^levels` coefficients, as a pair of pass and count within the pass.
/// After the last butterfly of the last pass this is `(levels, 0)`.
pub open spec fn successor(levels: nat, pass: nat, t: nat) -> (nat, nat) {
    if t + 1 < pow2((levels - 1) as nat) {
        (pass, t + 1)
    } else {
        (pass + 1, 0)
    }
}

/// Every butterfly stays inside the coefficients and inside the twiddle table.
pub proof fn lemma_butterfly_in_bounds(levels: nat, pass: nat, t: nat)
    requires
        pass < levels,
        t < pow2((levels - 1) as nat),
    ensures
        upper_index(pass, t) < lower_index(pass, t) < pow2(levels),
        twiddle_index(pow2(levels), pass, t) < pow2((levels - 1) as nat),
        pow2(levels) / (2 * pow2(pass)) == pow2((levels - 1 - pass) as nat),
{
    let h = pow2(pass);
    let s = pow2((levels - 1 - pass) as nat);
    let n = pow2(levels);
    let q = t / h;
    let r = t % h;
    lemma_pow2_pos(pass);
    lemma_pow2_pos((levels - 1 - pass) as nat);
    lemma_pow2_adds(pass, (levels - 1 - pass) as nat);
    lemma_pow2_unfold(levels);
    lemma_fundamental_div_mod(t as int, h as int);
    assert(n == (2 * h) * s) by (nonlinear_arith)
        requires
            n == 2 * (h * s),
    ;
    lemma_fundamental_div_mod_converse(n as int, (2 * h) as int, s as int, 0);
    assert(q < s) by (nonlinear_arith)
        requires
            t == h * q + r,
            0 <= r,
            t < h * s,
            h > 0,
    ;
    assert(q * (2 * h) + 2 * h <= (2 * h) * s) by (nonlinear_arith)
        requires
            q + 1 <= s,
            h > 0,
    ;
    assert(r * s + s <= h * s) by (nonlinear_arith)
        requires
            r + 1 <= h,
            s > 0,
    ;
}

/// The butterfly of pass `pass` that coefficient `x` takes part in.
pub open spec fn slot_of(pass: nat, x: nat) -> nat {
    (x / (2 * pow2(pass))) * pow2(pass) + x % pow2(pass)
}

/// Coefficient `x` is the second of its butterfly in pass `pass`: it lies in
/// the second half of its block.
pub open spec fn is_lower(pass: nat, x: nat) -> bool {
    x % (2 * pow2(pass)) >= pow2(pass)
}

/// Each butterfly is the butterfly of both its coefficients, so no two
/// butterflies of a pass share a coefficient.
pub proof fn lemma_butterflies_disjoint(pass: nat, t: nat)
    ensures
        slot_of(pass, upper_index(pass, t)) == t,
        slot_of(pass, lower_index(pass, t)) == t,
        !is_lower(pass, upper_index(pass, t)),
        is_lower(pass, lower_index(pass, t)),
{
    let h = pow2(pass) as int;
    let q = (t / pow2(pass)) as int;
    let r = (t % pow2(pass)) as int;
    let upper = upper_index(pass, t) as int;
    let lower = lower_index(pass, t) as int;
    lemma_pow2_pos(pass);
    lemma_fundamental_div_mod(t as int, h);
    assert(upper == q * (2 * h) + r);
    assert(q * (2 * h) == (2 * q) * h && q * (2 * h) + h == (2 * q + 1) * h && h * q == q * h)
        by (nonlinear_arith);
    lemma_fundamental_div_mod_converse(upper, 2 * h, q, r);
    lemma_fundamental_div_mod_converse(upper, h, 2 * q, r);
    lemma_fundamental_div_mod_converse(lower, 2 * h, q, r + h);
    lemma_fundamental_div_mod_converse(lower, h, 2 * q + 1, r);
}

/// Every coefficient takes part in a butterfly of every pass, as its first
/// or as its second coefficient.
pub proof fn lemma_butterflies_cover(levels: nat, pass: nat, x: nat)
    requires
        pass < levels,
        x < pow2(levels),
    ensures
        slot_of(pass, x) < pow2((levels - 1) as nat),
        is_lower(pass, x) ==> lower_index(pass, slot_of(pass, x)) == x,
        !is_lower(pass, x) ==> upper_index(pass, slot_of(pass, x)) == x,
{
    let h = pow2(pass) as int;
    let s = pow2((levels - 1 - pass) as nat) as int;
    let n = pow2(levels) as int;
    let b = (x / (2 * pow2(pass))) as int;
    let pos = (x % (2 * pow2(pass))) as int;
    let t = slot_of(pass, x) as int;
    lemma_pow2_pos(pass);
    lemma_pow2_pos((levels - 1 - pass) as nat);
    lemma_pow2_adds(pass, (levels - 1 - pass) as nat);
    lemma_pow2_unfold(levels);
    lemma_fundamental_div_mod(x as int, 2 * h);
    assert(n == (2 * h) * s) by (nonlinear_arith)
        requires
            n == 2 * (h * s),
    ;
    assert(b < s) by (nonlinear_arith)
        requires
            x == (2 * h) * b + pos,
            0 <= pos,
            x < (2 * h) * s,
            h > 0,
    ;
    assert(b * h + h <= h * s) by (nonlinear_arith)
        requires
            b + 1 <= s,
            h > 0,
    ;
    assert((2 * h) * b == (2 * b) * h && (2 * h) * b + h == (2 * b + 1) * h && (2 * h) * b == b
        * (2 * h)) by (nonlinear_arith);
    if pos < h {
        lemma_fundamental_div_mod_converse(x as int, h, 2 * b, pos);
        lemma_fundamental_div_mod_converse(t, h, b, pos);
    } else {
        lemma_fundamental_div_mod_converse(x as int, h, 2 * b + 1, pos - h);
        lemma_fundamental_div_mod_converse(t, h, b, pos - h);
    }
}

/// The butterflies of a radix-2 transform in the order in which they are
/// applied: pass after pass, within a pass block after block, within a block
/// from its first coefficient on.
pub struct Schedule {
    levels: u32,
    len: usize,
    pass: u32,
    slot: usize,
    half: usize,
    stride: usize,
    block: usize,
    offset: usize,
}

impl Schedule {
    /// Exponent of the transform's length.
    pub closed spec fn levels(&self) -> nat {
        self.levels as nat
    }

    /// The pass that the next butterfly belongs to; `levels()` when none is left.
    pub closed spec fn pass(&self) -> nat {
        self.pass as nat
    }

    /// How many butterflies of the current pass have been handed out.
    pub closed spec fn slot(&self) -> nat {
        self.slot as nat
    }

    pub closed spec fn wf(&self) -> bool {
        &&& self.levels < usize::BITS
        &&& self.len == pow2(self.levels as nat)
        &&& self.pass <= self.levels
        &&& self.pass == self.levels ==> self.slot == 0
        &&& self.pass < self.levels ==> {
            &&& self.half == pow2(self.pass as nat)
            &&& self.stride == pow2((self.levels - 1 - self.pass) as nat)
            &&& self.slot < pow2((self.levels - 1) as nat)
            &&& self.block == (self.slot as nat / pow2(self.pass as nat)) * (2 * pow2(
                self.pass as nat,
            ))
            &&& self.offset == self.slot as nat % pow2(self.pass as nat)
        }
    }

    /// The schedule of a transform of `2^levels` coefficients, before its
    /// first butterfly.
    pub fn new(levels: u32) -> (s: Self)
        requires
            levels < usize::BITS,
        ensures
            s.wf(),
            s.levels() == levels,
            s.pass() == 0,
            s.slot() == 0,
    {
        proof {
            lemma_pow2_fits(levels as nat);
            lemma2_to64();
            if levels > 0 {
                lemma_pow2_fits((levels - 1) as nat);
                lemma_pow2_pos((levels - 1) as nat);
            }
            lemma_fundamental_div_mod_converse(0, pow2(0) as int, 0, 0);
        }
        let len = power_of_two(levels);
        let stride = if levels > 0 {
            power_of_two(levels - 1)
        } else {
            1
        };
        Schedule { levels, len, pass: 0, slot: 0, half: 1, stride, block: 0, offset: 0 }
    }

    /// Hands out the next butterfly, or `None` once every pass is complete.
    pub fn next(&mut self) -> (b: Option<Butterfly>)
        requires
            old(self).wf(),
        ensures
            final(self).wf(),
            final(self).levels() == old(self).levels(),
            match b {
                None => {
                    &&& old(self).pass() == old(self).levels()
                    &&& final(self).pass() == old(self).pass()
                    &&& final(self).slot() == old(self).slot()
                },
                Some(b) => {
                    &&& old(self).pass() < old(self).levels()
                    &&& b.upper == upper_index(old(self).pass(), old(self).slot())
                    &&& b.lower == lower_index(old(self).pass(), old(self).slot())
                    &&& b.twiddle == twiddle_index(
                        pow2(old(self).levels()),
                        old(self).pass(),
                        old(self).slot(),
                    )
                    &&& (final(self).pass(), final(self).slot()) == successor(
                        old(self).levels(),
                        old(self).pass(),
                        old(self).slot(),
                    )
                },
            },
    {
        if self.pass >= self.levels {
            return None;
        }
        let ghost levels = self.levels as nat;
        let ghost pass = self.pass as nat;
        let ghost t = self.slot as nat;
        let ghost h = pow2(pass);
        let ghost passes_len = pow2((levels - 1) as nat);
        proof {
            lemma_butterfly_in_bounds(levels, pass, t);
            lemma_pow2_pos(pass);
            lemma_pow2_unfold(levels);
            lemma_pow2_fits(levels);
            lemma_fundamental_div_mod(t as int, h as int);
            if (t % h) + 1 < h {
                lemma_fundamental_div_mod_converse(t as int + 1, h as int, (t / h) as int, (t % h) as int + 1);
            } else {
                let q = t / h;
                let r = t % h;
                assert(t + 1 == (q + 1) * h) by (nonlinear_arith)
                    requires
                        t == h * q + r,
                        r + 1 == h,
                ;
                lemma_fundamental_div_mod_converse(t as int + 1, h as int, (t / h + 1) as int, 0);
                assert((t / h + 1) * (2 * h) == (t / h) * (2 * h) + 2 * h) by (nonlinear_arith);
            }
        }
        let upper = self.block + self.offset;
        let b = Butterfly { upper, lower: upper + self.half, twiddle: self.offset * self.stride };
        if self.slot + 1 < self.len / 2 {
            self.slot = self.slot + 1;
            if self.offset + 1 < self.half {
                self.offset = self.offset + 1;
            } else {
                proof {
                    lemma_butterfly_in_bounds(levels, pass, t + 1);
                }
                self.offset = 0;
                self.block = self.block + 2 * self.half;
            }
        } else {
            self.pass = self.pass + 1;
            self.slot = 0;
            self.block = 0;
            self.offset = 0;
            if self.pass < self.levels {
                proof {
                    lemma_pow2_unfold(pass + 1);
                    lemma_pow2_unfold((levels - 1 - pass) as nat);
                    lemma_pow2_pos(pass + 1);
                    lemma_pow2_pos((levels - 1) as nat);
                    lemma_pow2_fits(pass + 1);
                    lemma_fundamental_div_mod_converse(0, pow2(pass + 1) as int, 0, 0);
                }
                self.half = self.half * 2;
                self.stride = self.stride / 2;
            }
        }
        Some(b)
    }
}

} // verus!
