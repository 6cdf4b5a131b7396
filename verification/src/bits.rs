//! What the machine's bit operations compute, stated over powers of two.

use crate::log2::{floor_log2, lemma_floor_log2_step};
use vstd::arithmetic::power2::{is_pow2, lemma2_to64, lemma_pow2_unfold, pow2};
use vstd::prelude::*;
use vstd::std_specs::bits::{axiom_u64_leading_zeros, u64_leading_zeros};

verus! {

/// Counting the leading zero bits of a nonzero `u64` locates its highest set
/// bit.
pub proof fn lemma_leading_zeros_is_floor_log2(d: u64)
    requires
        d > 0,
    ensures
        u64_leading_zeros(d) == 63 - floor_log2(d),
    decreases d,
{
    reveal(u64_leading_zeros);
    lemma_floor_log2_step(d);
    if d < 2 {
        axiom_u64_leading_zeros(0);
    } else {
        lemma_leading_zeros_is_floor_log2(d / 2);
    }
}

/// Clearing the lowest set bit of a nonzero `u64` leaves nothing exactly when
/// the number is a power of two.
pub proof fn lemma_single_bit_is_pow2(n: u64)
    requires
        n > 0,
    ensures
        (n & ((n - 1) as u64)) == 0 <==> is_pow2(n as int),
    decreases n,
{
    reveal(is_pow2);
    if n == 1 {
        assert(1u64 & 0u64 == 0) by (bit_vector);
    } else {
        let h = n / 2;
        lemma_single_bit_is_pow2(h);
        assert(((n & ((n - 1) as u64)) == 0) <==> (n % 2 == 0 && (h & ((h - 1) as u64)) == 0))
            by (bit_vector)
            requires
                n >= 2,
                h == n / 2,
        ;
    }
}

/// Shifting one to the left inside a `u128` yields the power of two.
pub proof fn lemma_u128_one_shl_is_pow2(k: u8)
    requires
        k < 128,
    ensures
        (1u128 << k) == pow2(k as nat),
    decreases k,
{
    if k == 0 {
        lemma2_to64();
        assert(1u128 << 0u8 == 1) by (bit_vector);
    } else {
        let j = (k - 1) as u8;
        lemma_u128_one_shl_is_pow2(j);
        lemma_pow2_unfold(k as nat);
        assert((1u128 << k) == 2 * (1u128 << j)) by (bit_vector)
            requires
                0 < k < 128,
                j == k - 1,
        ;
    }
}

} // verus!
