//! Single-precision measurements as order keys.
//!
//! A measurement is held by the `i32` order key of its `f32` bit
//! pattern: the bits themselves for a positive number, the magnitude
//! bits negated for a negative one. Keys order as the numbers do, and
//! both zeros have the key zero. A key beyond that of infinity, on
//! either side, is the key of a NaN.

use vstd::prelude::*;

verus! {

/// The key of positive infinity.
pub const INFINITY_KEY: i32 = 0x7f80_0000;

/// Whether `k` is the key of a NaN.
pub open spec fn nan_key(k: i32) -> bool {
    k > INFINITY_KEY || k < -INFINITY_KEY
}

/// Whether `k` is the key of a finite number.
pub open spec fn finite_key(k: i32) -> bool {
    -INFINITY_KEY < k && k < INFINITY_KEY
}

/// Whether the number with the key `a` is at most that with the key
/// `b`. False where either is a NaN.
pub open spec fn key_le(a: i32, b: i32) -> bool {
    !nan_key(a) && !nan_key(b) && a <= b
}

/// The key of the `f32` with the given bits.
pub open spec fn key_of(bits: u32) -> i32 {
    if bits < 0x8000_0000 {
        bits as i32
    } else {
        -((bits - 0x8000_0000) as i32) as i32
    }
}

/// The bits of the `f32` with the given key.
pub open spec fn bits_of(k: i32) -> u32 {
    if k >= 0 {
        k as u32
    } else {
        (0x8000_0000 - k) as u32
    }
}

/// A key gives back the bits that it was made from, but for the
/// negative zero, which becomes the positive one.
pub proof fn key_round_trip(bits: u32)
    requires
        bits != 0x8000_0000,
    ensures
        bits_of(key_of(bits)) == bits,
{
}

/// Every key but the one below all others is the key of its bits.
pub proof fn bits_round_trip(k: i32)
    requires
        k > i32::MIN,
    ensures
        key_of(bits_of(k)) == k,
{
}

/// The key of the `f32` with the given bits.
pub fn key_of_bits(bits: u32) -> (k: i32)
    ensures
        k == key_of(bits),
{
    if bits < 0x8000_0000 {
        bits as i32
    } else {
        -((bits - 0x8000_0000) as i32)
    }
}

/// The bits of the `f32` with the given key.
pub fn bits_of_key(k: i32) -> (bits: u32)
    requires
        k > i32::MIN,
    ensures
        bits == bits_of(k),
{
    if k >= 0 {
        k as u32
    } else {
        0x8000_0000 + (-k) as u32
    }
}

/// Whether `k` is the key of a finite number.
pub fn is_finite_key(k: i32) -> (r: bool)
    ensures
        r == finite_key(k),
{
    -INFINITY_KEY < k && k < INFINITY_KEY
}

/// Whether the number with the key `a` is at most that with the key
/// `b`.
pub fn at_most(a: i32, b: i32) -> (r: bool)
    ensures
        r == key_le(a, b),
{
    a <= b && -INFINITY_KEY <= a && b <= INFINITY_KEY
}

/// The keys order as the bits of positive numbers do, and the other way
/// round for negative ones, which all stand below.
pub proof fn keys_order_as_numbers(a: u32, b: u32)
    ensures
        a < b < 0x8000_0000 ==> key_of(a) < key_of(b),
        0x8000_0000 <= a < b ==> key_of(a) > key_of(b),
        a < 0x8000_0000 < b ==> key_of(b) < key_of(a),
        a < 0x8000_0000 ==> key_of(a) == a,
        key_of(0x8000_0000) == 0,
{
}

/// What is no number is never at most anything, and nothing at most it;
/// infinity is a number and not finite.
pub proof fn what_is_no_number_compares_with_nothing(k: i32)
    ensures
        !key_le(0x7fc0_0000, k),
        !key_le(k, 0x7fc0_0000),
        -0x7f80_0000 <= k <= 0x7f80_0000 ==> key_le(k, k) && key_le(k, 0x7f80_0000) && key_le(
            (-0x7f80_0000) as i32,
            k,
        ),
        !finite_key(0x7f80_0000),
        finite_key(0x7f7f_ffff),
        !finite_key((-0x7f80_0000) as i32),
{
}

} // verus!
