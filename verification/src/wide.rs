//! Double-precision figures as order keys.
//!
//! A figure is held by the `i64` order key of its `f64` bit pattern, as
//! single-precision measurements are held by `i32` keys.

use vstd::arithmetic::power2::{lemma2_to64, lemma_pow2_adds, pow2};
use vstd::prelude::*;

verus! {

/// The key of positive infinity.
pub const WIDE_INFINITY: i64 = 0x7ff0_0000_0000_0000;

/// Whether `k` is the key of a NaN.
pub open spec fn wide_nan(k: i64) -> bool {
    k > WIDE_INFINITY || k < -WIDE_INFINITY
}

/// Whether `k` is the key of a finite number.
pub open spec fn wide_finite(k: i64) -> bool {
    -WIDE_INFINITY < k && k < WIDE_INFINITY
}

/// Whether the number with the key `a` is at most that with the key
/// `b`. False where either is a NaN.
pub open spec fn wide_le(a: i64, b: i64) -> bool {
    !wide_nan(a) && !wide_nan(b) && a <= b
}

/// Whether the number with the key `a` is less than that with the key
/// `b`. False where either is a NaN.
pub open spec fn wide_lt(a: i64, b: i64) -> bool {
    !wide_nan(a) && !wide_nan(b) && a < b
}

/// The key of the `f64` with the given bits.
pub open spec fn wide_key(bits: u64) -> i64 {
    if bits < 0x8000_0000_0000_0000 {
        bits as i64
    } else {
        -((bits - 0x8000_0000_0000_0000) as i64) as i64
    }
}

/// Whether `k` is the key of the whole number `n`.
pub open spec fn is_wide_whole(k: i64, n: nat) -> bool {
    &&& 0x10_0000_0000_0000 <= k < WIDE_INFINITY
    &&& (0x10_0000_0000_0000 + k % 0x10_0000_0000_0000) * pow2(
        (k / 0x10_0000_0000_0000 - 1) as nat,
    ) == n * pow2(1074)
}

/// The key of the whole number whose mantissa and exponent are given.
pub proof fn wide_whole(k: i64, n: nat, e: nat, m: nat)
    requires
        0 < e < 2047,
        k == e * 0x10_0000_0000_0000 + (m - 0x10_0000_0000_0000),
        0x10_0000_0000_0000 <= m < 0x20_0000_0000_0000,
        1 <= e - 1 <= 1074,
        m == n * pow2((1075 - e) as nat),
    ensures
        is_wide_whole(k, n),
{
    assert(k / 0x10_0000_0000_0000 == e);
    assert(k % 0x10_0000_0000_0000 == m - 0x10_0000_0000_0000);
    lemma_pow2_adds((1075 - e) as nat, (e - 1) as nat);
    assert((n * pow2((1075 - e) as nat)) * pow2((e - 1) as nat) == n * (pow2((1075 - e) as nat)
        * pow2((e - 1) as nat))) by (nonlinear_arith);
}

/// The key of the `f64` with the given bits.
pub fn wide_key_of_bits(bits: u64) -> (k: i64)
    ensures
        k == wide_key(bits),
{
    if bits < 0x8000_0000_0000_0000 {
        bits as i64
    } else {
        -((bits - 0x8000_0000_0000_0000) as i64)
    }
}

/// Whether `k` is the key of a finite number.
pub fn is_wide_finite(k: i64) -> (r: bool)
    ensures
        r == wide_finite(k),
{
    -WIDE_INFINITY < k && k < WIDE_INFINITY
}

/// Whether the number with the key `a` is at most that with the key
/// `b`.
pub fn wide_at_most(a: i64, b: i64) -> (r: bool)
    ensures
        r == wide_le(a, b),
{
    a <= b && -WIDE_INFINITY <= a && b <= WIDE_INFINITY
}

/// Whether the number with the key `a` is less than that with the key
/// `b`.
pub fn wide_below(a: i64, b: i64) -> (r: bool)
    ensures
        r == wide_lt(a, b),
{
    a < b && -WIDE_INFINITY <= a && b <= WIDE_INFINITY
}

/// The key of five.
pub const WIDE_5: i64 = 0x4014_0000_0000_0000;

/// The key of twenty.
pub const WIDE_20: i64 = 0x4034_0000_0000_0000;

/// The key of thirty.
pub const WIDE_30: i64 = 0x403e_0000_0000_0000;

/// The key of fifty.
pub const WIDE_50: i64 = 0x4049_0000_0000_0000;

/// The key of sixty.
pub const WIDE_60: i64 = 0x404e_0000_0000_0000;

/// The key of eighty.
pub const WIDE_80: i64 = 0x4054_0000_0000_0000;

/// The key of ninety.
pub const WIDE_90: i64 = 0x4056_8000_0000_0000;

/// The key of a hundred.
pub const WIDE_100: i64 = 0x4059_0000_0000_0000;

/// The key of a hundred and twenty.
pub const WIDE_120: i64 = 0x405e_0000_0000_0000;

/// The key of a hundred and fifty.
pub const WIDE_150: i64 = 0x4062_c000_0000_0000;

/// The named keys are those of the numbers they are named after.
pub proof fn named_keys_are_whole()
    ensures
        is_wide_whole(WIDE_5, 5),
        is_wide_whole(WIDE_20, 20),
        is_wide_whole(WIDE_30, 30),
        is_wide_whole(WIDE_50, 50),
        is_wide_whole(WIDE_60, 60),
        is_wide_whole(WIDE_80, 80),
        is_wide_whole(WIDE_90, 90),
        is_wide_whole(WIDE_100, 100),
        is_wide_whole(WIDE_120, 120),
        is_wide_whole(WIDE_150, 150),
{
    lemma2_to64();
    vstd::arithmetic::power2::lemma2_to64_rest();
    wide_whole(WIDE_5, 5, 1025, 5 * 0x4_0000_0000_0000);
    wide_whole(WIDE_20, 20, 1027, 20 * 0x1_0000_0000_0000);
    wide_whole(WIDE_30, 30, 1027, 30 * 0x1_0000_0000_0000);
    wide_whole(WIDE_50, 50, 1028, 50 * 0x8000_0000_0000);
    wide_whole(WIDE_60, 60, 1028, 60 * 0x8000_0000_0000);
    wide_whole(WIDE_80, 80, 1029, 80 * 0x4000_0000_0000);
    wide_whole(WIDE_90, 90, 1029, 90 * 0x4000_0000_0000);
    wide_whole(WIDE_100, 100, 1029, 100 * 0x4000_0000_0000);
    wide_whole(WIDE_120, 120, 1029, 120 * 0x4000_0000_0000);
    wide_whole(WIDE_150, 150, 1030, 150 * 0x2000_0000_0000);
}

} // verus!
