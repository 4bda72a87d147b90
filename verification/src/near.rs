//! Measurements that are the same for a slider: those whose difference
//! is less than the epsilon of single precision.

use crate::double::big_two_to;
use crate::keys::{finite_key, is_finite_key, INFINITY_KEY};
use crate::quotient::{rounds_to, units, units_rise};
use vstd::arithmetic::power2::{
    lemma2_to64, lemma2_to64_rest, lemma_pow2_adds, lemma_pow2_pos, lemma_pow2_strictly_increases,
    lemma_pow2_unfold, pow2,
};
use vstd::prelude::*;

verus! {

/// The key of the epsilon of single precision.
pub const EPSILON_KEY: i32 = 0x3400_0000;

/// Twice the epsilon, as a key.
const TWICE_EPSILON_KEY: i32 = 0x3480_0000;

/// The key of two.
const TWO_KEY: i32 = 0x4000_0000;

/// The least distance that is not rounded to less than the epsilon, in
/// units of the smallest positive number: half way between the epsilon
/// and the number below it.
pub const NEAR_LIMIT: u128 = 0x3fff_ffe0_0000_0000_0000_0000_0000_0000;

/// The number with a finite key, in units of the smallest positive
/// number.
pub open spec fn signed_units(k: i32) -> int {
    if k >= 0 {
        units(k as int)
    } else {
        -units(-k as int)
    }
}

/// The distance of two numbers, in the same units.
pub open spec fn distance(a: i32, b: i32) -> int {
    let d = signed_units(a) - signed_units(b);
    if d >= 0 {
        d
    } else {
        -d
    }
}

/// Whether two measurements are finite and their difference is less than
/// the epsilon, once it is rounded.
pub open spec fn is_near(a: i32, b: i32) -> bool {
    finite_key(a) && finite_key(b) && distance(a, b) < NEAR_LIMIT
}

proof fn epsilon_units()
    ensures
        units(EPSILON_KEY as int) == pow2(126),
        units(EPSILON_KEY - 1) == 0xff_ffff * pow2(102),
        pow2(126) == 0x4000_0000_0000_0000_0000_0000_0000_0000,
        2 * NEAR_LIMIT == units(EPSILON_KEY as int) + units(EPSILON_KEY - 1),
{
    lemma2_to64();
    lemma2_to64_rest();
    lemma_pow2_adds(63, 63);
    lemma_pow2_adds(51, 51);
    lemma_pow2_adds(23, 103);
    assert(pow2(126) == 0x4000_0000_0000_0000_0000_0000_0000_0000) by (nonlinear_arith)
        requires
            pow2(126) == pow2(63) * pow2(63),
            pow2(63) == 0x8000_0000_0000_0000,
    ;
    assert(pow2(102) == 0x40_0000_0000_0000_0000_0000_0000) by (nonlinear_arith)
        requires
            pow2(102) == pow2(51) * pow2(51),
            pow2(51) == 0x8_0000_0000_0000,
    ;
    assert(EPSILON_KEY / 0x80_0000 == 104 && EPSILON_KEY % 0x80_0000 == 0);
    assert((EPSILON_KEY - 1) / 0x80_0000 == 103 && (EPSILON_KEY - 1) % 0x80_0000 == 0x7f_ffff);
}

/// A distance is below the limit exactly where it is rounded to a number
/// below the epsilon.
pub proof fn limit_is_the_epsilon(n: int, q: int)
    requires
        0 <= n,
        rounds_to(n, 1, q),
    ensures
        n < NEAR_LIMIT <==> q < EPSILON_KEY,
{
    epsilon_units();
    let e = EPSILON_KEY as int;
    if q < e {
        let u = units(q) + units(q + 1);
        assert(u * 1 == u);
        if q + 1 < e {
            units_rise(q, e - 1);
            units_rise(q + 1, e);
        } else {
            assert(q % 2 == 1);
        }
    } else {
        let u = units(q - 1) + units(q);
        assert(u * 1 == u);
        if q > e {
            units_rise(e - 1, q - 1);
            units_rise(e, q);
        }
    }
}

/// A measurement is near to itself, and as near to another as the other
/// is to it.
pub proof fn nearness_is_mutual(a: i32, b: i32)
    requires
        finite_key(a),
    ensures
        is_near(a, a),
        is_near(a, b) == is_near(b, a),
{
}

/// Numbers of two or more are too far from their neighbours to be near
/// to them.
proof fn great_gaps(k: int)
    requires
        TWO_KEY <= k < INFINITY_KEY,
    ensures
        units(k) - units(k - 1) >= pow2(126),
{
    let e = k / 0x80_0000;
    lemma_pow2_unfold((e - 1) as nat);
    lemma_pow2_pos((e - 2) as nat);
    if e - 2 > 126 {
        lemma_pow2_strictly_increases(126, (e - 2) as nat);
    }
    let s = pow2((e - 1) as nat) as int;
    let h = pow2((e - 2) as nat) as int;
    if k % 0x80_0000 != 0 {
        assert((k - 1) / 0x80_0000 == e && (k - 1) % 0x80_0000 == k % 0x80_0000 - 1);
        let m = 0x80_0000 + k % 0x80_0000;
        assert(m * s - (m - 1) * s == s) by (nonlinear_arith);
    } else {
        assert((k - 1) / 0x80_0000 == e - 1 && (k - 1) % 0x80_0000 == 0x7f_ffff);
        assert(units(k) == 0x80_0000 * s);
        assert(units(k - 1) == 0xff_ffff * h);
    }
}

/// A small magnitude in units of the smallest positive number.
fn small_units(k: i32) -> (r: u128)
    requires
        0 <= k < TWICE_EPSILON_KEY,
    ensures
        r == units(k as int),
        r < 0x8000_0000_0000_0000_0000_0000_0000_0000,
{
    if k < 0x80_0000 {
        return k as u128;
    }
    let m: u128 = (0x80_0000 + k % 0x80_0000) as u128;
    let e: u32 = (k / 0x80_0000 - 1) as u32;
    let p: u128 = big_two_to(e);
    proof {
        lemma2_to64();
        lemma2_to64_rest();
        lemma_pow2_adds(52, 51);
        if e < 103 {
            lemma_pow2_strictly_increases(e as nat, 103);
        }
        assert(pow2(103) == 0x80_0000_0000_0000_0000_0000_0000) by (nonlinear_arith)
            requires
                pow2(103) == pow2(52) * pow2(51),
                pow2(52) == 0x10_0000_0000_0000,
                pow2(51) == 0x8_0000_0000_0000,
        ;
        assert(m * p < 0x8000_0000_0000_0000_0000_0000_0000_0000) by (nonlinear_arith)
            requires
                m <= 0xff_ffff,
                p <= 0x80_0000_0000_0000_0000_0000_0000,
                0 <= m,
                0 <= p,
        ;
    }
    m * p
}

/// A middling magnitude in units of the last digit of the epsilon.
fn middle_units(k: i32) -> (r: u64)
    requires
        EPSILON_KEY <= k < TWO_KEY,
    ensures
        units(k as int) == r * pow2(103),
        r < 0x8000_0000_0000,
{
    let m: u64 = (0x80_0000 + k % 0x80_0000) as u64;
    let e: u32 = (k / 0x80_0000 - 104) as u32;
    let p: u128 = big_two_to(e);
    proof {
        lemma2_to64();
        if e < 23 {
            lemma_pow2_strictly_increases(e as nat, 23);
        }
        lemma_pow2_adds(e as nat, 103);
        assert(m * p <= 0xff_ffff * 0x80_0000) by (nonlinear_arith)
            requires
                m <= 0xff_ffff,
                p <= 0x80_0000,
                0 <= m,
                0 <= p,
        ;
        assert(m * (p * pow2(103)) == (m * p) * pow2(103)) by (nonlinear_arith);
    }
    m * p as u64
}

/// Whether the greater of two magnitudes on the same side is near to the
/// smaller.
fn near_on_one_side(hi: i32, lo: i32) -> (r: bool)
    requires
        0 <= lo <= hi < INFINITY_KEY,
    ensures
        r == (units(hi as int) - units(lo as int) < NEAR_LIMIT),
{
    proof {
        epsilon_units();
        lemma_pow2_unfold(127);
        lemma2_to64();
        lemma_pow2_adds(23, 103);
        assert(units(TWICE_EPSILON_KEY as int) == 0x80_0000 * pow2(104)) by {
            assert(TWICE_EPSILON_KEY / 0x80_0000 == 105 && TWICE_EPSILON_KEY % 0x80_0000 == 0);
        }
        lemma_pow2_adds(23, 104);
    }
    if hi == lo {
        return true;
    }
    if hi < TWICE_EPSILON_KEY {
        proof {
            units_rise(lo as int, hi as int);
        }
        return small_units(hi) - small_units(lo) < NEAR_LIMIT;
    }
    proof {
        if TWICE_EPSILON_KEY < hi {
            units_rise(TWICE_EPSILON_KEY as int, hi as int);
        }
    }
    if lo < EPSILON_KEY {
        proof {
            units_rise(lo as int, EPSILON_KEY as int);
        }
        return false;
    }
    if hi >= TWO_KEY {
        proof {
            great_gaps(hi as int);
            if lo < hi - 1 {
                units_rise(lo as int, hi - 1);
            }
        }
        return false;
    }
    let a: u64 = middle_units(hi);
    let b: u64 = middle_units(lo);
    proof {
        units_rise(lo as int, hi as int);
        let p = pow2(103) as int;
        lemma_pow2_pos(103);
        assert(a > b) by (nonlinear_arith)
            requires
                a * p > b * p,
                p > 0,
        ;
        let d = a - b;
        assert(a * p - b * p == d * p) by (nonlinear_arith)
            requires
                d == a - b,
        ;
        assert(pow2(126) == 0x80_0000 * p);
        if d < 0x80_0000 {
            assert(d * p <= 0x7f_ffff * p) by (nonlinear_arith)
                requires
                    d <= 0x7f_ffff,
                    p > 0,
            ;
        } else {
            assert(d * p >= 0x80_0000 * p) by (nonlinear_arith)
                requires
                    d >= 0x80_0000,
                    p > 0,
            ;
        }
    }
    a - b < 0x80_0000
}

/// Whether two magnitudes on different sides are near to each other.
fn near_across(a: i32, b: i32) -> (r: bool)
    requires
        0 <= a < INFINITY_KEY,
        0 <= b < INFINITY_KEY,
    ensures
        r == (units(a as int) + units(b as int) < NEAR_LIMIT),
{
    proof {
        epsilon_units();
        if a > 0 {
            units_rise(0, a as int);
        }
        if b > 0 {
            units_rise(0, b as int);
        }
    }
    if a >= EPSILON_KEY || b >= EPSILON_KEY {
        proof {
            if a > EPSILON_KEY {
                units_rise(EPSILON_KEY as int, a as int);
            }
            if b > EPSILON_KEY {
                units_rise(EPSILON_KEY as int, b as int);
            }
        }
        return false;
    }
    proof {
        units_rise(a as int, EPSILON_KEY as int);
        units_rise(b as int, EPSILON_KEY as int);
    }
    small_units(a) + small_units(b) < NEAR_LIMIT
}

/// Whether two measurements are the same for a slider.
pub fn near(a: i32, b: i32) -> (r: bool)
    ensures
        r == is_near(a, b),
{
    if !is_finite_key(a) || !is_finite_key(b) {
        return false;
    }
    proof {
        assert(units(0) == 0);
        if a > b {
            if b >= 0 {
                units_rise(b as int, a as int);
            }
            if a < 0 {
                units_rise(-a as int, -b as int);
            }
        } else if a < b {
            if a >= 0 {
                units_rise(a as int, b as int);
            }
            if b < 0 {
                units_rise(-b as int, -a as int);
            }
        }
        if a > 0 {
            units_rise(0, a as int);
        }
        if b > 0 {
            units_rise(0, b as int);
        }
        if a < 0 {
            units_rise(0, -a as int);
        }
        if b < 0 {
            units_rise(0, -b as int);
        }
    }
    if a >= 0 && b >= 0 {
        if a >= b {
            near_on_one_side(a, b)
        } else {
            near_on_one_side(b, a)
        }
    } else if a < 0 && b < 0 {
        if a <= b {
            near_on_one_side(-a, -b)
        } else {
            near_on_one_side(-b, -a)
        }
    } else if a >= 0 {
        near_across(a, -b)
    } else {
        near_across(-a, b)
    }
}

} // verus!
