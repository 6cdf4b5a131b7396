//! What holds of every divider that was prepared for a divisor.

use crate::divider::DividerU64;
use crate::log2::{
    floor_log2, lemma_floor_log2_bounds, lemma_is_pow2_iff_own_power, lemma_pow2_is_pow2,
};
use crate::reciprocal::{
    lemma_long_reciprocal_divides, lemma_reciprocal_fits_64_bits, lemma_reciprocal_has_65_bits,
    lemma_short_reciprocal_divides,
};
use vstd::arithmetic::power2::{is_pow2, lemma2_to64, pow2};
use vstd::prelude::*;

verus! {

/// Applying the divider prepared for `divisor` to any dividend `n` yields
/// `n / divisor`, rounded towards zero.
pub proof fn lemma_prepared_divider_divides(divisor: u64, n: u64)
    requires
        divisor > 0,
    ensures
        DividerU64::for_divisor(divisor).quotient(n) == n / divisor,
{
    lemma_floor_log2_bounds(divisor);
    lemma2_to64();
    if is_pow2(divisor as int) {
        lemma_is_pow2_iff_own_power(divisor);
    } else if DividerU64::fast_suffices(divisor) {
        lemma_reciprocal_fits_64_bits(divisor);
        lemma_short_reciprocal_divides(divisor, n);
    } else {
        lemma_reciprocal_has_65_bits(divisor);
        lemma_long_reciprocal_divides(divisor, n);
    }
}

/// The divider prepared for `divisor` is well formed and divides by
/// `divisor`.
pub proof fn lemma_prepared_divider_is_exact(divisor: u64)
    requires
        divisor > 0,
    ensures
        DividerU64::for_divisor(divisor).wf(),
        DividerU64::for_divisor(divisor).divides_by(divisor),
{
    lemma_floor_log2_bounds(divisor);
    let divider = DividerU64::for_divisor(divisor);
    assert forall|n: u64| #[trigger] divider.quotient(n) == n / divisor by {
        lemma_prepared_divider_divides(divisor, n);
    }
}

/// A divider divides by one divisor at most: what it computes tells the
/// divisor.
pub proof fn lemma_divisor_is_determined(divider: DividerU64, d1: u64, d2: u64)
    requires
        divider.divides_by(d1),
        divider.divides_by(d2),
    ensures
        d1 == d2,
{
    // Dividing the smaller of two distinct divisors by the larger gives
    // zero, and dividing it by itself gives one.
    let low = if d1 <= d2 { d1 } else { d2 };
    assert(divider.quotient(low) == low / d1);
    assert(divider.quotient(low) == low / d2);
    assert(low as int / low as int == 1) by (nonlinear_arith)
        requires
            low > 0,
    ;
    assert(d1 != d2 ==> low as int / (d1 + d2 - low) == 0) by (nonlinear_arith)
        requires
            0 < low <= d1,
            low <= d2,
    ;
}

/// Distinct divisors are prepared into distinct dividers.
pub proof fn lemma_for_divisor_is_injective(d1: u64, d2: u64)
    requires
        d1 > 0,
        d2 > 0,
        DividerU64::for_divisor(d1) == DividerU64::for_divisor(d2),
    ensures
        d1 == d2,
{
    lemma_prepared_divider_is_exact(d1);
    lemma_prepared_divider_is_exact(d2);
    lemma_divisor_is_determined(DividerU64::for_divisor(d1), d1, d2);
}

/// Zero divided by any divisor is zero.
pub proof fn lemma_zero_dividend(divisor: u64)
    requires
        divisor > 0,
    ensures
        DividerU64::for_divisor(divisor).quotient(0) == 0,
{
    lemma_prepared_divider_divides(divisor, 0);
}

/// A divisor divided by itself is one.
pub proof fn lemma_divisor_as_dividend(divisor: u64)
    requires
        divisor > 0,
    ensures
        DividerU64::for_divisor(divisor).quotient(divisor) == 1,
{
    lemma_prepared_divider_divides(divisor, divisor);
    assert(divisor as int / divisor as int == 1) by (nonlinear_arith)
        requires
            divisor > 0,
    ;
}

/// Dividing by one leaves every dividend unchanged, the largest included.
pub proof fn lemma_divisor_one(n: u64)
    ensures
        DividerU64::for_divisor(1).quotient(n) == n,
{
    lemma_prepared_divider_divides(1, n);
}

/// A power of two is prepared into a shift by its exponent.
pub proof fn lemma_power_of_two_is_bit_shift(k: u8)
    requires
        k <= 63,
    ensures
        pow2(k as nat) <= u64::MAX,
        DividerU64::for_divisor(pow2(k as nat) as u64) == DividerU64::BitShift(k),
{
    lemma_pow2_is_pow2(k as nat);
}

/// Which strategy a divisor gets: a power of two a shift, and any other
/// divisor a multiplier. Whatever the strategy, the shift is the divisor's
/// `floor_log2`.
pub proof fn lemma_strategy_of_divisor(divisor: u64)
    requires
        divisor > 0,
    ensures
        DividerU64::for_divisor(divisor) is BitShift <==> is_pow2(divisor as int),
        DividerU64::for_divisor(divisor) is Fast <==> !is_pow2(divisor as int)
            && DividerU64::fast_suffices(divisor),
        DividerU64::for_divisor(divisor) is General <==> !is_pow2(divisor as int)
            && !DividerU64::fast_suffices(divisor),
        DividerU64::for_divisor(divisor).shift() == floor_log2(divisor),
{
    lemma_floor_log2_bounds(divisor);
}

} // verus!
