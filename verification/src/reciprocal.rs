//! Reciprocals scaled by a power of two and rounded up, and why multiplying
//! by one and shifting divides exactly.

use crate::log2::{floor_log2, lemma_floor_log2_bounds, lemma_is_pow2_iff_own_power};
use vstd::arithmetic::div_mod::{
    lemma_div_denominator, lemma_fundamental_div_mod, lemma_fundamental_div_mod_converse,
};
use vstd::arithmetic::power2::{is_pow2, lemma2_to64, lemma_pow2_adds, lemma_pow2_pos, pow2};
use vstd::prelude::*;

verus! {

/// `2^k / d` rounded down, plus one: the multiplier that stands for `1 / d`
/// at the scale `2^k`. Where `d` is no power of two, this is `2^k / d`
/// rounded up.
pub open spec fn round_up_reciprocal(k: nat, d: u64) -> int
    recommends
        d > 0,
{
    pow2(k) as int / d as int + 1
}

/// By how much `round_up_reciprocal(k, d) * d` overshoots `2^k`.
pub open spec fn round_up_error(k: nat, d: u64) -> int
    recommends
        d > 0,
{
    d as int - pow2(k) as int % d as int
}

/// The rounded-up reciprocal times the divisor is the scale plus the error,
/// and the error is positive and at most the divisor.
pub proof fn lemma_round_up_identity(k: nat, d: u64)
    requires
        d > 0,
    ensures
        round_up_reciprocal(k, d) * d == pow2(k) + round_up_error(k, d),
        0 < round_up_error(k, d) <= d,
{
    let u = pow2(k) as int;
    let dd = d as int;
    lemma_fundamental_div_mod(u, dd);
    assert((u / dd + 1) * dd == dd * (u / dd) + dd) by (nonlinear_arith);
}

/// Division by multiplication: when `m * d` overshoots the scale `u` by an
/// error `e` so small that `e * n < u`, then `(m * n) / u` is `n / d`.
pub proof fn lemma_multiply_divides(n: int, d: int, m: int, u: int, e: int)
    requires
        0 <= n,
        0 < d,
        0 < u,
        0 <= e,
        m * d == u + e,
        e * n < u,
    ensures
        (m * n) / u == n / d,
{
    let q = n / d;
    let t = n % d;
    lemma_fundamental_div_mod(n, d);
    let w = m * n - q * u;
    assert(d * w == u * t + e * n) by (nonlinear_arith)
        requires
            m * d == u + e,
            n == d * q + t,
            w == m * n - q * u,
    ;
    assert(0 <= u * t && u * (t + 1) <= u * d && 0 <= e * n) by (nonlinear_arith)
        requires
            0 <= t < d,
            0 < u,
            0 <= e,
            0 <= n,
    ;
    assert(u * (t + 1) == u * t + u) by (nonlinear_arith);
    assert(0 <= w < u) by (nonlinear_arith)
        requires
            0 <= d * w < u * d,
            0 < d,
    ;
    lemma_fundamental_div_mod_converse(m * n, u, q, w);
}

/// For a divisor `d` that is not a power of two, the reciprocal at the scale
/// `2^(64 + floor_log2(d))` fits in 64 bits.
pub proof fn lemma_reciprocal_fits_64_bits(d: u64)
    requires
        d > 0,
        !is_pow2(d as int),
    ensures
        0 < round_up_reciprocal(64 + floor_log2(d), d) <= u64::MAX,
{
    let s = floor_log2(d);
    let a = pow2(s) as int;
    let u = pow2(64 + s) as int;
    let m = u / (d as int);
    lemma_scale_splits(64, s);
    lemma_floor_log2_bounds(d);
    lemma_is_pow2_iff_own_power(d);
    lemma_fundamental_div_mod(u, d as int);
    assert(0 <= m < 0xffff_ffff_ffff_ffff) by (nonlinear_arith)
        requires
            0 < a < d < 0x1_0000_0000_0000_0000,
            0 <= u - d * m < d,
            u == 0x1_0000_0000_0000_0000 * a,
    ;
}

/// For a divisor `d` that is not a power of two, the reciprocal at the scale
/// `2^(65 + floor_log2(d))` has exactly 65 bits: it lies strictly between
/// `2^64` and `2^65`.
pub proof fn lemma_reciprocal_has_65_bits(d: u64)
    requires
        d > 0,
        !is_pow2(d as int),
    ensures
        pow2(64) < round_up_reciprocal(65 + floor_log2(d), d) < 2 * pow2(64),
{
    let s = floor_log2(d);
    let a = pow2(s) as int;
    let u = pow2(65 + s) as int;
    let m = u / (d as int);
    lemma_scale_splits(65, s);
    lemma_pow2_adds(1, 64);
    lemma2_to64();
    lemma_floor_log2_bounds(d);
    lemma_pow2_adds(s, 1);
    lemma_is_pow2_iff_own_power(d);
    lemma_fundamental_div_mod(u, d as int);
    assert(0x1_0000_0000_0000_0000 <= m < 0x1_ffff_ffff_ffff_ffff) by (nonlinear_arith)
        requires
            0 < a < d < 2 * a,
            d < 0x1_0000_0000_0000_0000,
            0 <= u - d * m < d,
            u == 0x2_0000_0000_0000_0000 * a,
    ;
}

/// Multiplying by the 64-bit reciprocal and discarding `64 + floor_log2(d)`
/// low bits divides by `d`, provided the reciprocal's error is below
/// `2^floor_log2(d)`.
pub proof fn lemma_short_reciprocal_divides(d: u64, n: u64)
    requires
        d > 0,
        round_up_error(64 + floor_log2(d), d) < pow2(floor_log2(d)),
    ensures
        (round_up_reciprocal(64 + floor_log2(d), d) * n) / (pow2(64 + floor_log2(d)) as int) == n
            / d,
{
    let s = floor_log2(d);
    let a = pow2(s) as int;
    let u = pow2(64 + s) as int;
    let e = round_up_error(64 + s, d);
    lemma_scale_splits(64, s);
    lemma_round_up_identity(64 + s, d);
    assert(e * n < u) by (nonlinear_arith)
        requires
            0 < e < a,
            0 <= n < 0x1_0000_0000_0000_0000,
            u == 0x1_0000_0000_0000_0000 * a,
    ;
    lemma_multiply_divides(n as int, d as int, round_up_reciprocal(64 + s, d), u, e);
}

/// Multiplying by the 65-bit reciprocal and discarding `65 + floor_log2(d)`
/// low bits divides by `d`, whatever the divisor.
pub proof fn lemma_long_reciprocal_divides(d: u64, n: u64)
    requires
        d > 0,
    ensures
        (round_up_reciprocal(65 + floor_log2(d), d) * n) / (pow2(65 + floor_log2(d)) as int) == n
            / d,
{
    let s = floor_log2(d);
    let a = pow2(s) as int;
    let u = pow2(65 + s) as int;
    let e = round_up_error(65 + s, d);
    lemma_scale_splits(65, s);
    lemma_pow2_adds(1, 64);
    lemma2_to64();
    lemma_floor_log2_bounds(d);
    lemma_pow2_adds(s, 1);
    lemma_round_up_identity(65 + s, d);
    assert(e * n < u) by (nonlinear_arith)
        requires
            0 < e <= d < 2 * a,
            0 <= n < 0x1_0000_0000_0000_0000,
            u == 0x2_0000_0000_0000_0000 * a,
    ;
    lemma_multiply_divides(n as int, d as int, round_up_reciprocal(65 + s, d), u, e);
}

/// Discarding 64 low bits of a product and then `shift` more is discarding
/// `64 + shift` bits at once.
pub proof fn lemma_high_word_then_shift(magic: u64, n: u64, shift: nat)
    ensures
        ((magic * n) / 0x1_0000_0000_0000_0000) / (pow2(shift) as int) == (magic * n) / (pow2(
            64 + shift,
        ) as int),
{
    lemma_scale_splits(64, shift);
    assert(0 <= magic * n) by (nonlinear_arith);
    lemma_div_denominator(magic * n, 0x1_0000_0000_0000_0000, pow2(shift) as int);
}

/// The averaging step that stands for a 65-bit multiplier. With `q` the high
/// word of `magic_low * n`, the sum `(n - q) / 2 + q` neither underflows nor
/// exceeds `n`, and discarding `shift` of its low bits yields what
/// multiplying by `2^64 + magic_low` and discarding `65 + shift` bits would.
pub proof fn lemma_implicit_leading_bit(magic_low: u64, n: u64, shift: nat)
    ensures
        ({
            let q = (magic_low * n) / 0x1_0000_0000_0000_0000;
            &&& 0 <= q <= n
            &&& (n - q) / 2 + q <= n
            &&& ((n - q) / 2 + q) / (pow2(shift) as int) == ((pow2(64) + magic_low) * n) / (pow2(
                65 + shift,
            ) as int)
        }),
{
    let p = 0x1_0000_0000_0000_0000int;
    let low = magic_low * n;
    let q = low / p;
    let full = (pow2(64) + magic_low) * n;
    lemma2_to64();
    lemma_scale_splits(65, shift);
    lemma_fundamental_div_mod(low, p);
    assert(0 <= low <= (p - 1) * n && full == p * n + low) by (nonlinear_arith)
        requires
            low == magic_low * n,
            full == (p + magic_low) * n,
            0 <= magic_low < p,
            0 <= n,
    ;
    lemma_fundamental_div_mod_converse(full, p, n + q, low % p);
    lemma_div_denominator(full, p, 2 * (pow2(shift) as int));
    lemma_div_denominator(n + q, 2, pow2(shift) as int);
}

proof fn lemma_scale_splits(w: nat, s: nat)
    requires
        w == 64 || w == 65,
    ensures
        w == 64 ==> pow2(w + s) == 0x1_0000_0000_0000_0000 * pow2(s),
        w == 65 ==> pow2(w + s) == 0x2_0000_0000_0000_0000 * pow2(s),
        pow2(s) > 0,
{
    lemma2_to64();
    lemma_pow2_adds(1, 64);
    lemma_pow2_adds(w, s);
    lemma_pow2_pos(s);
}

} // verus!
