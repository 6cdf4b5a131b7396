//! The divider itself: the strategy chosen for a divisor, and its
//! application to a dividend.

use crate::bits::{
    lemma_leading_zeros_is_floor_log2, lemma_single_bit_is_pow2, lemma_u128_one_shl_is_pow2,
};
use crate::correctness::lemma_prepared_divider_is_exact;
use crate::log2::{floor_log2, lemma_floor_log2_bounds, lemma_only_pow2_divides_pow2};
use crate::reciprocal::{
    lemma_high_word_then_shift, lemma_implicit_leading_bit, lemma_reciprocal_fits_64_bits,
    lemma_reciprocal_has_65_bits, round_up_error, round_up_reciprocal,
};
use vstd::arithmetic::div_mod::{lemma_div_minus_one, lemma_fundamental_div_mod};
use vstd::arithmetic::power2::{
    is_pow2, lemma2_to64, lemma2_to64_rest, lemma_pow2_adds, lemma_pow2_strictly_increases, pow2,
};
use vstd::bits::{lemma_u64_shl_is_mul, lemma_u64_shr_is_div};
use vstd::prelude::*;

verus! {

/// Why no divider could be prepared.
#[derive(Debug, Clone, Copy, PartialEq, Eq, Structural)]
pub enum DividerError {
    /// The divisor was zero.
    InvalidDivisor,
}

/// A divisor, prepared for dividing by it again and again.
///
/// Which variant stands for a divisor is decided by
/// [`DividerU64::for_divisor`]; what a variant computes is
/// [`DividerU64::quotient`].
#[derive(Debug, Clone, Copy, PartialEq, Eq, Structural)]
pub enum DividerU64 {
    /// A 64-bit multiplier is enough: multiply, keep the high word, shift.
    Fast { magic: u64, shift: u8 },
    /// The divisor is `2^shift`: shift.
    BitShift(u8),
    /// The multiplier has 65 bits, of which the leading one is implied and
    /// the other 64 are `magic_low`.
    General { magic_low: u64, shift: u8 },
}

/// The high 64 bits of the 128-bit product of `x` and `y`.
pub open spec fn high_word(x: u64, y: u64) -> int {
    (x * y) / 0x1_0000_0000_0000_0000
}

/// Multiplies two words into 128 bits and keeps the high word.
#[inline(always)]
fn libdivide_mullhi_u64(x: u64, y: u64) -> (hi: u64)
    ensures
        hi == high_word(x, y),
{
    let xl = x as u128;
    let yl = y as u128;
    proof {
        assert(xl * yl <= 0xffff_ffff_ffff_ffff * 0xffff_ffff_ffff_ffff) by (nonlinear_arith)
            requires
                xl <= 0xffff_ffff_ffff_ffff,
                yl <= 0xffff_ffff_ffff_ffff,
        ;
        let product = (xl * yl) as u128;
        assert(product >> 64 == product / 0x1_0000_0000_0000_0000) by (bit_vector);
    }
    ((xl * yl) >> 64) as u64
}

/// Tells whether the nonzero `n` has a single bit set.
#[inline(always)]
fn is_power_of_2(n: u64) -> (r: bool)
    requires
        n > 0,
    ensures
        r == is_pow2(n as int),
{
    proof {
        lemma_single_bit_is_pow2(n);
    }
    n & (n - 1) == 0
}

/// The scale `2^(64 + s)` of a divisor's reciprocal has between 65 and 128
/// bits.
proof fn lemma_scale_fits_128_bits(s: nat)
    requires
        s <= 63,
    ensures
        0x1_0000_0000_0000_0000 <= pow2(64 + s) <= 0x8000_0000_0000_0000_0000_0000_0000_0000,
{
    lemma2_to64();
    lemma2_to64_rest();
    lemma_pow2_adds(64, s);
    if s < 63 {
        lemma_pow2_strictly_increases(s, 63);
    }
    if s > 0 {
        lemma_pow2_strictly_increases(0, s);
    }
    assert(0x1_0000_0000_0000_0000 * 1 <= 0x1_0000_0000_0000_0000 * pow2(s)
        <= 0x1_0000_0000_0000_0000 * 0x8000_0000_0000_0000) by (nonlinear_arith)
        requires
            1 <= pow2(s) <= 0x8000_0000_0000_0000,
    ;
}

impl DividerU64 {
    /// The number of low bits that applying this divider discards last.
    pub open spec fn shift(self) -> u8 {
        match self {
            DividerU64::Fast { shift, .. } => shift,
            DividerU64::BitShift(shift) => shift,
            DividerU64::General { shift, .. } => shift,
        }
    }

    /// A divider is well formed when its shift is less than the width of a
    /// `u64`.
    pub open spec fn wf(self) -> bool {
        self.shift() <= 63
    }

    /// What applying this divider to `n` yields.
    pub open spec fn quotient(self, n: u64) -> int {
        match self {
            DividerU64::Fast { magic, shift } => (magic * n) / (pow2(64 + shift as nat) as int),
            DividerU64::BitShift(shift) => n as int / (pow2(shift as nat) as int),
            DividerU64::General { magic_low, shift } => ((pow2(64) + magic_low) * n) / (pow2(
                65 + shift as nat,
            ) as int),
        }
    }

    /// Whether this divider divides by `divisor`: applied to any dividend it
    /// yields the truncated quotient.
    pub open spec fn divides_by(self, divisor: u64) -> bool {
        &&& divisor > 0
        &&& forall|n: u64| #[trigger] self.quotient(n) == n / divisor
    }

    /// The divider for a power of two: a shift by its logarithm.
    pub open spec fn bit_shift_for(divisor: u64) -> DividerU64 {
        DividerU64::BitShift(floor_log2(divisor) as u8)
    }

    /// The divider with a 64-bit multiplier: the reciprocal of `divisor` at
    /// the scale `2^(64 + floor_log2(divisor))`, rounded up.
    pub open spec fn fast_for(divisor: u64) -> DividerU64 {
        DividerU64::Fast {
            magic: round_up_reciprocal(64 + floor_log2(divisor), divisor) as u64,
            shift: floor_log2(divisor) as u8,
        }
    }

    /// Whether the 64-bit multiplier is exact for every dividend: its error
    /// stays below `2^floor_log2(divisor)`.
    pub open spec fn fast_suffices(divisor: u64) -> bool {
        round_up_error(64 + floor_log2(divisor), divisor) < pow2(floor_log2(divisor))
    }

    /// The divider with a 65-bit multiplier: the reciprocal of `divisor` at
    /// the scale `2^(65 + floor_log2(divisor))`, rounded up, without its
    /// leading bit.
    pub open spec fn general_for(divisor: u64) -> DividerU64 {
        DividerU64::General {
            magic_low: (round_up_reciprocal(65 + floor_log2(divisor), divisor) - pow2(64)) as u64,
            shift: floor_log2(divisor) as u8,
        }
    }

    /// The one divider that stands for `divisor`.
    pub open spec fn for_divisor(divisor: u64) -> DividerU64
        recommends
            divisor > 0,
    {
        if is_pow2(divisor as int) {
            Self::bit_shift_for(divisor)
        } else if Self::fast_suffices(divisor) {
            Self::fast_for(divisor)
        } else {
            Self::general_for(divisor)
        }
    }

    /// The first strategy: a power of two is divided by with a shift.
    fn power_of_2_division(divisor: u64) -> (r: Option<DividerU64>)
        requires
            divisor > 0,
        ensures
            is_pow2(divisor as int) ==> r == Some(Self::bit_shift_for(divisor)),
            !is_pow2(divisor as int) ==> r is None,
    {
        proof {
            lemma_leading_zeros_is_floor_log2(divisor);
            lemma_floor_log2_bounds(divisor);
        }
        let floor_log_2_d: u8 = 63u8 - (divisor.leading_zeros() as u8);
        if is_power_of_2(divisor) {
            // A shift is all it takes.
            return Some(DividerU64::BitShift(floor_log_2_d));
        }
        None
    }

    /// The second strategy: the reciprocal at the scale
    /// `2^(64 + floor_log2(divisor))`, rounded up, where its error is small
    /// enough for it to be exact on every dividend.
    fn fast_path(divisor: u64) -> (r: Option<DividerU64>)
        requires
            divisor > 0,
        ensures
            !is_pow2(divisor as int) && Self::fast_suffices(divisor) ==> r == Some(
                Self::fast_for(divisor),
            ),
            is_pow2(divisor as int) || !Self::fast_suffices(divisor) ==> r is None,
    {
        if is_power_of_2(divisor) {
            return None;
        }
        proof {
            lemma_leading_zeros_is_floor_log2(divisor);
            lemma_floor_log2_bounds(divisor);
            lemma_u128_one_shl_is_pow2((floor_log2(divisor) + 64) as u8);
        }
        let floor_log_2_d: u8 = 63u8 - (divisor.leading_zeros() as u8);
        let u = 1u128 << (floor_log_2_d + 64);
        let proposed_magic_number: u128 = u / divisor as u128;
        proof {
            lemma_fundamental_div_mod(u as int, divisor as int);
            lemma_reciprocal_fits_64_bits(divisor);
            assert(proposed_magic_number * divisor == divisor * (u as int / divisor as int))
                by (nonlinear_arith)
                requires
                    proposed_magic_number == u as int / divisor as int,
            ;
        }
        let reminder: u64 = (u - proposed_magic_number * (divisor as u128)) as u64;
        proof {
            lemma_only_pow2_divides_pow2(divisor as int, 64 + floor_log2(divisor));
            assert(reminder > 0 && reminder < divisor);
        }
        let e: u64 = divisor - reminder;
        proof {
            lemma_u64_shl_is_mul(1, floor_log_2_d as u64);
        }
        if e >= (1u64 << floor_log_2_d) {
            return None;
        }
        Some(DividerU64::Fast { magic: (proposed_magic_number as u64) + 1u64, shift: floor_log_2_d })
    }

    /// The last strategy, for every divisor that is no power of two: the
    /// reciprocal at twice the scale, which has 65 bits, stored without its
    /// leading bit.
    fn general_path(divisor: u64) -> (r: DividerU64)
        requires
            divisor > 0,
            !is_pow2(divisor as int),
        ensures
            r == Self::general_for(divisor),
    {
        proof {
            lemma_leading_zeros_is_floor_log2(divisor);
            lemma_floor_log2_bounds(divisor);
            lemma_u128_one_shl_is_pow2((floor_log2(divisor) + 64) as u8);
            lemma_pow2_adds(1, 64 + floor_log2(divisor));
            lemma_scale_fits_128_bits(floor_log2(divisor));
        }
        // p = ceil(log2(d)), as d is no power of two.
        let p: u8 = 64u8 - (divisor.leading_zeros() as u8);
        // With p = 64 the scale 2^(64 + p) does not fit in 128 bits, so the
        // quotient is taken from twice 2^(63 + p) less the divisor.
        let e = 1u128 << (63 + p);
        proof {
            lemma2_to64();
            assert(2 * e == pow2(65 + floor_log2(divisor)));
            lemma_div_minus_one(2 * e, divisor as int);
            assert(e + (e - divisor) == -(divisor as int) + 2 * e);
            lemma_reciprocal_has_65_bits(divisor);
        }
        let m = 2 + (e + (e - divisor as u128)) / divisor as u128;
        proof {
            assert(m == round_up_reciprocal(65 + floor_log2(divisor), divisor));
            assert((m as u64) == m % 0x1_0000_0000_0000_0000) by (bit_vector);
        }
        DividerU64::General { magic_low: #[verifier::truncate] (m as u64), shift: p - 1 }
    }

    /// Prepares the divider for `divisor`. Zero has none.
    ///
    /// The divider depends on `divisor` alone: preparing twice for one
    /// divisor yields equal dividers.
    pub fn divide_by(divisor: u64) -> (r: Result<DividerU64, DividerError>)
        ensures
            divisor == 0 ==> r == Err::<DividerU64, DividerError>(DividerError::InvalidDivisor),
            divisor > 0 ==> r == Ok::<DividerU64, DividerError>(Self::for_divisor(divisor)),
            r matches Ok(divider) ==> divider.wf() && divider.divides_by(divisor),
    {
        if divisor == 0 {
            return Err(DividerError::InvalidDivisor);
        }
        let divider = match Self::power_of_2_division(divisor) {
            Some(divider) => divider,
            None => match Self::fast_path(divisor) {
                Some(divider) => divider,
                None => Self::general_path(divisor),
            },
        };
        proof {
            lemma_prepared_divider_is_exact(divisor);
        }
        Ok(divider)
    }

    /// Divides `n` by the divisor that this divider was prepared for,
    /// rounding towards zero.
    #[inline(always)]
    pub fn divide(&self, n: u64) -> (q: u64)
        requires
            self.wf(),
        ensures
            q == self.quotient(n),
            forall|divisor: u64| self.divides_by(divisor) ==> q == n / divisor,
    {
        match *self {
            DividerU64::BitShift(d) => {
                proof {
                    lemma_u64_shr_is_div(n, d as u64);
                }
                n >> d
            },
            DividerU64::Fast { magic, shift } => {
                let hi = libdivide_mullhi_u64(magic, n);
                proof {
                    lemma_u64_shr_is_div(hi, shift as u64);
                    lemma_high_word_then_shift(magic, n, shift as nat);
                }
                hi >> shift
            },
            DividerU64::General { magic_low, shift } => {
                // Only the low 64 bits of the 65-bit multiplier are stored:
                // averaging `n` with the high word makes up for the bit
                // that is implied.
                let q = libdivide_mullhi_u64(magic_low, n);
                proof {
                    lemma_implicit_leading_bit(magic_low, n, shift as nat);
                    let difference = (n - q) as u64;
                    assert(difference >> 1 == difference / 2) by (bit_vector);
                }
                let t = (n.wrapping_sub(q) >> 1).wrapping_add(q);
                proof {
                    lemma_u64_shr_is_div(t, shift as u64);
                }
                t >> shift
            },
        }
    }
}

} // verus!
