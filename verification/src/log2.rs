//! The floor of the base-2 logarithm of a `u64`, and the powers of two.

use vstd::arithmetic::div_mod::{lemma_fundamental_div_mod, lemma_fundamental_div_mod_converse};
use vstd::arithmetic::logarithm::{lemma_log0, lemma_log_s, log};
use vstd::arithmetic::power2::{
    is_pow2, lemma2_to64, lemma2_to64_rest, lemma_pow2_pos, lemma_pow2_strictly_increases,
    lemma_pow2_unfold, pow2,
};
use vstd::prelude::*;

verus! {

/// The index of the highest set bit of `d`: the `s` with `2^s <= d < 2^(s+1)`.
pub open spec fn floor_log2(d: u64) -> nat
    recommends
        d > 0,
{
    log(2, d as int) as nat
}

/// `floor_log2(d)` is the exponent of the largest power of two that is at
/// most `d`, and it fits in six bits.
pub proof fn lemma_floor_log2_bounds(d: u64)
    requires
        d > 0,
    ensures
        pow2(floor_log2(d)) <= d < pow2(floor_log2(d) + 1),
        floor_log2(d) <= 63,
{
    lemma_log2_brackets(d as int);
    let s = floor_log2(d);
    lemma2_to64_rest();
    if s > 64 {
        lemma_pow2_strictly_increases(64, s);
    }
}

proof fn lemma_log2_brackets(x: int)
    requires
        x > 0,
    ensures
        log(2, x) >= 0,
        pow2(log(2, x) as nat) <= x < pow2((log(2, x) + 1) as nat),
    decreases x,
{
    lemma2_to64();
    if x < 2 {
        lemma_log0(2, x);
    } else {
        lemma_log_s(2, x);
        lemma_log2_brackets(x / 2);
        let k = log(2, x / 2);
        lemma_pow2_unfold((k + 1) as nat);
        lemma_pow2_unfold((k + 2) as nat);
    }
}

/// Only one exponent brackets a given number between consecutive powers of
/// two.
pub proof fn lemma_floor_log2_unique(d: u64, k: nat)
    requires
        pow2(k) <= d < pow2(k + 1),
    ensures
        floor_log2(d) == k,
{
    lemma_pow2_pos(k);
    lemma_floor_log2_bounds(d);
    let s = floor_log2(d);
    if s < k {
        if s + 1 < k {
            lemma_pow2_strictly_increases(s + 1, k);
        }
    } else if k < s {
        if k + 1 < s {
            lemma_pow2_strictly_increases(k + 1, s);
        }
    }
}

/// Halving a number of at least two lowers its `floor_log2` by one; below
/// two it is zero.
pub proof fn lemma_floor_log2_step(d: u64)
    requires
        d > 0,
    ensures
        d < 2 ==> floor_log2(d) == 0,
        d >= 2 ==> floor_log2(d) == floor_log2(d / 2) + 1,
{
    if d < 2 {
        lemma_log0(2, d as int);
    } else {
        lemma_log_s(2, d as int);
        lemma_log2_brackets((d / 2) as int);
    }
}

/// A nonzero `u64` is a power of two exactly when it equals two raised to its
/// own `floor_log2`.
pub proof fn lemma_is_pow2_iff_own_power(d: u64)
    requires
        d > 0,
    ensures
        is_pow2(d as int) <==> d == pow2(floor_log2(d)),
    decreases d,
{
    reveal(is_pow2);
    lemma2_to64();
    lemma_floor_log2_step(d);
    if d >= 2 {
        lemma_is_pow2_iff_own_power(d / 2);
        lemma_pow2_unfold(floor_log2(d));
    }
}

/// Every power of two that fits in a `u64` is recognised as one, and its
/// `floor_log2` is its exponent.
pub proof fn lemma_pow2_is_pow2(k: nat)
    requires
        k <= 63,
    ensures
        pow2(k) <= u64::MAX,
        is_pow2(pow2(k) as int),
        floor_log2(pow2(k) as u64) == k,
{
    lemma2_to64_rest();
    lemma_pow2_pos(k);
    if k < 63 {
        lemma_pow2_strictly_increases(k, 63);
    }
    lemma_pow2_strictly_increases(k, k + 1);
    let d = pow2(k) as u64;
    lemma_floor_log2_unique(d, k);
    lemma_is_pow2_iff_own_power(d);
}

/// Only powers of two divide a power of two: any other divisor leaves a
/// remainder.
pub proof fn lemma_only_pow2_divides_pow2(d: int, k: nat)
    requires
        d > 0,
        !is_pow2(d),
    ensures
        pow2(k) as int % d != 0,
    decreases k,
{
    reveal(is_pow2);
    let u = pow2(k) as int;
    if u % d == 0 {
        let c = u / d;
        lemma_fundamental_div_mod(u, d);
        lemma_pow2_pos(k);
        if k == 0 {
            lemma2_to64();
            assert(d == 1) by (nonlinear_arith)
                requires
                    d > 0,
                    d * c == 1,
            ;
        } else {
            let v = pow2((k - 1) as nat) as int;
            lemma_pow2_unfold(k);
            if d % 2 == 0 {
                let h = d / 2;
                assert(v == c * h + 0) by (nonlinear_arith)
                    requires
                        d == 2 * h,
                        d * c == 2 * v,
                ;
                lemma_fundamental_div_mod_converse(v, h, c, 0);
                lemma_only_pow2_divides_pow2(h, (k - 1) as nat);
            } else {
                let a = d / 2;
                let b = c / 2;
                // The product of two odd numbers would be odd.
                assert(c == 2 * b) by {
                    assert(d * (2 * b + 1) == 2 * (d * b) + d) by (nonlinear_arith);
                    assert(d == 2 * a + 1);
                }
                assert(v == b * d + 0) by (nonlinear_arith)
                    requires
                        c == 2 * b,
                        d * c == 2 * v,
                ;
                lemma_fundamental_div_mod_converse(v, d, b, 0);
                lemma_only_pow2_divides_pow2(d, (k - 1) as nat);
            }
        }
    }
}

} // verus!
