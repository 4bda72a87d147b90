//! Arithmetic on double-precision figures.
//!
//! The magnitude of a key is counted in units of the smallest positive
//! double-precision number, so that it is a whole number.

use crate::keys::INFINITY_KEY;
use crate::quotient::{same_side, units, NAN_KEY};
use crate::wide::{wide_finite, wide_nan, WIDE_INFINITY};
use vstd::arithmetic::power2::{
    lemma2_to64, lemma2_to64_rest, lemma_pow2_adds, lemma_pow2_pos, lemma_pow2_strictly_increases,
    lemma_pow2_unfold, pow2,
};
use vstd::prelude::*;

verus! {

/// The key that stands for a result that is no number.
pub const WIDE_NAN: i64 = 0x7ff8_0000_0000_0000;

/// The magnitude of the number with the key `k >= 0`, in units of the
/// smallest positive number. The key of infinity stands for the power of
/// two after the last finite number.
pub open spec fn wide_units(k: int) -> int {
    if k < 0x10_0000_0000_0000 {
        k
    } else {
        (0x10_0000_0000_0000 + k % 0x10_0000_0000_0000) * pow2(
            (k / 0x10_0000_0000_0000 - 1) as nat,
        )
    }
}

/// A greater key has a greater magnitude.
pub proof fn wide_units_rise(a: int, b: int)
    requires
        0 <= a < b,
    ensures
        wide_units(a) < wide_units(b),
    decreases b - a,
{
    if a + 1 < b {
        wide_units_rise(a, b - 1);
        wide_units_rise(b - 1, b);
    } else if b < 0x10_0000_0000_0000 {
    } else if b == 0x10_0000_0000_0000 {
        lemma2_to64();
        assert(wide_units(b) == 0x10_0000_0000_0000 * pow2(0));
    } else if b % 0x10_0000_0000_0000 != 0 {
        let e = (b / 0x10_0000_0000_0000 - 1) as nat;
        assert(a / 0x10_0000_0000_0000 == b / 0x10_0000_0000_0000 && a % 0x10_0000_0000_0000 == b % 0x10_0000_0000_0000 - 1);
        lemma_pow2_pos(e);
        assert((0x10_0000_0000_0000 + a % 0x10_0000_0000_0000) * pow2(e) < (0x10_0000_0000_0000 + b % 0x10_0000_0000_0000) * pow2(e))
            by (nonlinear_arith)
            requires
                a % 0x10_0000_0000_0000 < b % 0x10_0000_0000_0000,
                pow2(e) > 0,
        ;
    } else {
        let e = (b / 0x10_0000_0000_0000 - 1) as nat;
        assert(a / 0x10_0000_0000_0000 == b / 0x10_0000_0000_0000 - 1 && a % 0x10_0000_0000_0000 == 0xf_ffff_ffff_ffff);
        lemma_pow2_unfold(e);
        lemma_pow2_pos((e - 1) as nat);
        assert(wide_units(a) == 0x1f_ffff_ffff_ffff * pow2((e - 1) as nat));
        assert(wide_units(b) == 0x10_0000_0000_0000 * pow2(e));
    }
}

/// The magnitude of a key that is put together from a place and a
/// mantissa.
proof fn wide_units_of_parts(x: int, m: int)
    requires
        0 <= x,
        0 <= m <= 0x20_0000_0000_0000,
        x > 0 ==> 0x10_0000_0000_0000 <= m,
    ensures
        wide_units(x * 0x10_0000_0000_0000 + m) == m * pow2(x as nat),
{
    let k = x * 0x10_0000_0000_0000 + m;
    lemma2_to64();
    if x == 0 && m < 0x10_0000_0000_0000 {
        assert(k == m);
        assert(m * pow2(x as nat) == m) by (nonlinear_arith)
            requires
                pow2(x as nat) == 1,
        ;
    } else if m < 0x20_0000_0000_0000 {
        assert(k / 0x10_0000_0000_0000 == x + 1 && k % 0x10_0000_0000_0000 == m - 0x10_0000_0000_0000);
        assert(0x10_0000_0000_0000 + k % 0x10_0000_0000_0000 == m);
        assert(wide_units(k) == m * pow2(x as nat));
    } else {
        assert(k / 0x10_0000_0000_0000 == x + 2 && k % 0x10_0000_0000_0000 == 0);
        lemma_pow2_unfold((x + 1) as nat);
        assert(wide_units(k) == 0x10_0000_0000_0000 * pow2((x + 1) as nat));
        assert(m * pow2(x as nat) == 0x20_0000_0000_0000 * pow2(x as nat)) by (nonlinear_arith)
            requires
                m == 0x20_0000_0000_0000,
        ;
    }
}

/// A rounded mantissa lies no farther than half way below its upper
/// neighbour.
pub(crate) proof fn wide_parts_above(n: int, d: int, x: int, m: int, num: int, den: int)
    requires
        d > 0,
        0 <= x,
        0 <= m <= 0x20_0000_0000_0000,
        x > 0 ==> 0x10_0000_0000_0000 <= m,
        den > 0,
        n * den == num * (d * pow2(x as nat)),
        2 * num <= (2 * m + 1) * den,
        2 * num == (2 * m + 1) * den ==> m % 2 == 0,
    ensures
        ({
            let q = x * 0x10_0000_0000_0000 + m;
            2 * n < (wide_units(q) + wide_units(q + 1)) * d || (2 * n == (wide_units(q) + wide_units(q + 1)) * d && m
                % 2 == 0)
        }),
{
    let q = x * 0x10_0000_0000_0000 + m;
    let s = pow2(x as nat) as int;
    lemma_pow2_pos(x as nat);
    wide_units_of_parts(x, m);
    same_side(n, d, num, den, s, 2 * m + 1);
    let a = wide_units(q);
    let b = wide_units(q + 1);
    if m < 0x20_0000_0000_0000 {
        wide_units_of_parts(x, m + 1);
        assert(q + 1 == x * 0x10_0000_0000_0000 + (m + 1));
        assert(a + b == (2 * m + 1) * s) by (nonlinear_arith)
            requires
                a == m * s,
                b == (m + 1) * s,
        ;
    } else {
        assert(q + 1 == (x + 1) * 0x10_0000_0000_0000 + 0x10_0000_0000_0001);
        wide_units_of_parts(x + 1, 0x10_0000_0000_0001);
        lemma_pow2_unfold((x + 1) as nat);
        assert(b == 0x10_0000_0000_0001 * (2 * s));
        assert(a + b == (2 * m + 1) * s + s) by (nonlinear_arith)
            requires
                a == m * s,
                b == 0x10_0000_0000_0001 * (2 * s),
                m == 0x20_0000_0000_0000,
        ;
        let w = (2 * m + 1) * s;
        assert(w * d < (w + s) * d) by (nonlinear_arith)
            requires
                s > 0,
                d > 0,
        ;
    }
}

/// A rounded mantissa lies no farther than half way above its lower
/// neighbour.
pub(crate) proof fn wide_parts_below(n: int, d: int, x: int, m: int, num: int, den: int)
    requires
        d > 0,
        0 <= x,
        0 <= m <= 0x20_0000_0000_0000,
        x > 0 ==> 0x10_0000_0000_0000 <= m && 0x10_0000_0000_0000 * den <= num,
        den > 0,
        n * den == num * (d * pow2(x as nat)),
        (2 * m - 1) * den <= 2 * num,
        (2 * m - 1) * den == 2 * num ==> m % 2 == 0,
        x * 0x10_0000_0000_0000 + m > 0,
    ensures
        ({
            let q = x * 0x10_0000_0000_0000 + m;
            (wide_units(q - 1) + wide_units(q)) * d < 2 * n || ((wide_units(q - 1) + wide_units(q)) * d == 2 * n && m
                % 2 == 0)
        }),
{
    let q = x * 0x10_0000_0000_0000 + m;
    let s = pow2(x as nat) as int;
    lemma_pow2_pos(x as nat);
    wide_units_of_parts(x, m);
    let a = wide_units(q - 1);
    let b = wide_units(q);
    if m > 0x10_0000_0000_0000 || x == 0 {
        same_side(n, d, num, den, s, 2 * m - 1);
        wide_units_of_parts(x, m - 1);
        assert(q - 1 == x * 0x10_0000_0000_0000 + (m - 1));
        assert(a + b == (2 * m - 1) * s) by (nonlinear_arith)
            requires
                a == (m - 1) * s,
                b == m * s,
        ;
    } else {
        wide_units_rise(q - 1, q);
        same_side(n, d, num, den, s, 2 * m);
        assert((2 * m) * den <= 2 * num) by (nonlinear_arith)
            requires
                0x10_0000_0000_0000 * den <= num,
                m == 0x10_0000_0000_0000,
        ;
        assert((a + b) * d < ((2 * m) * s) * d) by (nonlinear_arith)
            requires
                a < b,
                b == m * s,
                d > 0,
        ;
    }
}

/// Whether `q` is the key of the number nearest to the fraction `n / d`
/// of units, half way points to the even key.
pub open spec fn wide_rounds_to(n: int, d: int, q: int) -> bool {
    &&& 0 <= q <= WIDE_INFINITY
    &&& q > 0 ==> ((wide_units(q - 1) + wide_units(q)) * d < 2 * n || ((wide_units(q - 1)
        + wide_units(q)) * d == 2 * n && q % 2 == 0))
    &&& q < WIDE_INFINITY ==> (2 * n < (wide_units(q) + wide_units(q + 1)) * d || (2 * n == (
    wide_units(q) + wide_units(q + 1)) * d && q % 2 == 0))
}

/// A fraction is rounded to one key.
pub proof fn wide_rounding_is_unique(n: int, d: int, a: int, b: int)
    requires
        0 < d,
        wide_rounds_to(n, d, a),
        wide_rounds_to(n, d, b),
    ensures
        a == b,
{
    if a <= b {
        wide_roundings_meet(n, d, a, b);
    } else {
        wide_roundings_meet(n, d, b, a);
    }
}

proof fn wide_roundings_meet(n: int, d: int, a: int, b: int)
    requires
        0 < d,
        wide_rounds_to(n, d, a),
        wide_rounds_to(n, d, b),
        a <= b,
    ensures
        a == b,
{
    if a + 1 < b {
        wide_units_rise(a + 1, b);
        if a + 1 < b - 1 {
            wide_units_rise(a + 1, b - 1);
        }
        wide_units_rise(a, a + 1);
        let x = wide_units(a) + wide_units(a + 1);
        let y = wide_units(b - 1) + wide_units(b);
        assert(x * d < y * d) by (nonlinear_arith)
            requires
                x < y,
                d > 0,
        ;
    } else if a < b {
        assert(b - 1 == a && b == a + 1);
    }
}

/// What is put together from a rounded mantissa is nearest.
proof fn wide_parts_are_nearest(n: int, d: int, x: int, m: int, num: int, den: int)
    requires
        0 < d,
        0 <= x,
        0 <= m <= 0x20_0000_0000_0000,
        x > 0 ==> 0x10_0000_0000_0000 <= m && 0x10_0000_0000_0000 * den <= num,
        den > 0,
        n * den == num * (d * pow2(x as nat)),
        (2 * m - 1) * den <= 2 * num <= (2 * m + 1) * den,
        (2 * m - 1) * den == 2 * num || 2 * num == (2 * m + 1) * den ==> m % 2 == 0,
    ensures
        x * 0x10_0000_0000_0000 + m <= WIDE_INFINITY ==> wide_rounds_to(
            n,
            d,
            x * 0x10_0000_0000_0000 + m,
        ),
        x * 0x10_0000_0000_0000 + m > WIDE_INFINITY ==> wide_rounds_to(
            n,
            d,
            WIDE_INFINITY as int,
        ),
{
    let q = x * 0x10_0000_0000_0000 + m;
    assert(q % 2 == m % 2);
    wide_parts_above(n, d, x, m, num, den);
    if q > 0 {
        wide_parts_below(n, d, x, m, num, den);
    }
    if q > WIDE_INFINITY {
        let i = WIDE_INFINITY as int;
        wide_units_rise(i - 1, q - 1);
        wide_units_rise(i, q);
        let a = wide_units(i - 1) + wide_units(i);
        let b = wide_units(q - 1) + wide_units(q);
        assert(a * d < b * d) by (nonlinear_arith)
            requires
                a < b,
                d > 0,
        ;
    }
}

/// The mantissa of a magnitude and the place of its last digit.
fn split(k: i64) -> (r: (u64, u32))
    requires
        0 <= k <= WIDE_INFINITY,
    ensures
        r.0 < 0x20_0000_0000_0000,
        r.1 <= 2046,
        r.1 > 0 ==> 0x10_0000_0000_0000 <= r.0,
        wide_units(k as int) == r.0 * pow2(r.1 as nat),
        r.1 == 0 ==> k < 0x20_0000_0000_0000,
        r.1 > 0 || k >= 0x10_0000_0000_0000 ==> k == (r.1 + 1) * 0x10_0000_0000_0000 + (r.0
            - 0x10_0000_0000_0000),
{
    proof {
        lemma2_to64();
    }
    if k < 0x10_0000_0000_0000 {
        proof {
            assert(k * pow2(0) == k) by (nonlinear_arith)
                requires
                    pow2(0) == 1,
            ;
        }
        (k as u64, 0)
    } else {
        let e: i64 = k / 0x10_0000_0000_0000;
        let m: i64 = 0x10_0000_0000_0000 + k % 0x10_0000_0000_0000;
        (m as u64, (e - 1) as u32)
    }
}

/// A power of two.
pub(crate) fn big_two_to(e: u32) -> (r: u128)
    requires
        e < 126,
    ensures
        r == pow2(e as nat),
        0 < r <= 0x2000_0000_0000_0000_0000_0000_0000_0000,
{
    let mut r: u128 = 1;
    let mut i: u32 = 0;
    proof {
        lemma2_to64();
    }
    while i < e
        invariant
            i <= e < 126,
            r == pow2(i as nat),
            i < 126,
            0 < r,
        decreases e - i,
    {
        proof {
            power_fits(i as nat);
            lemma_pow2_unfold((i + 1) as nat);
        }
        r = r * 2;
        i += 1;
    }
    proof {
        power_fits(e as nat);
    }
    r
}

proof fn power_fits(i: nat)
    requires
        i < 126,
    ensures
        pow2(i) <= 0x2000_0000_0000_0000_0000_0000_0000_0000,
{
    lemma2_to64();
    lemma2_to64_rest();
    lemma_pow2_adds(63, 62);
    assert(pow2(125) == 0x2000_0000_0000_0000_0000_0000_0000_0000) by (nonlinear_arith)
        requires
            pow2(125) == pow2(63) * pow2(62),
            pow2(63) == 0x8000_0000_0000_0000,
            pow2(62) == 0x4000_0000_0000_0000,
    ;
    if i < 125 {
        lemma_pow2_strictly_increases(i, 125);
    }
}

/// Rounds a fraction to the nearest whole number, half way points to
/// the even one.
fn round_even_big(num: u128, den: u128, top: Ghost<int>, least: Ghost<int>) -> (m: u128)
    requires
        0 < den <= 0x2000_0000_0000_0000_0000_0000_0000_0000,
        num <= top@ * den,
        0 <= top@,
    ensures
        m <= top@,
        (2 * m - 1) * den <= 2 * num <= (2 * m + 1) * den,
        (2 * m - 1) * den == 2 * num || 2 * num == (2 * m + 1) * den ==> m % 2 == 0,
        least@ * den <= num ==> least@ <= m,
{
    let w: u128 = num / den;
    let r: u128 = num % den;
    let ghost t = top@;
    proof {
        vstd::arithmetic::div_mod::lemma_fundamental_div_mod(num as int, den as int);
        assert(num == den * w + r);
        assert(0 <= r < den);
        assert(w <= t) by (nonlinear_arith)
            requires
                num == den * w + r,
                num <= t * den,
                0 <= r < den,
        ;
        let l = least@;
        if l * den <= num {
            assert(l <= w) by (nonlinear_arith)
                requires
                    l * den <= num,
                    num == den * w + r,
                    0 <= r < den,
            ;
        }
        assert(r > 0 ==> w < t) by (nonlinear_arith)
            requires
                num == den * w + r,
                num <= t * den,
                0 < den,
        ;
        assert(w <= num) by (nonlinear_arith)
            requires
                num == den * w + r,
                1 <= den,
                0 <= r,
                0 <= w,
        ;
    }
    let up: bool = 2 * r > den || (2 * r == den && w % 2 == 1);
    proof {
        if up {
            assert(w < num) by (nonlinear_arith)
                requires
                    num == den * w + r,
                    1 <= den,
                    0 < r,
                    0 <= w,
            ;
        }
    }
    let m: u128 = if up {
        w + 1
    } else {
        w
    };
    proof {
        assert((2 * w + 1) * den == 2 * (den * w) + den) by (nonlinear_arith);
        assert((2 * w - 1) * den == 2 * (den * w) - den) by (nonlinear_arith);
        assert((2 * (w + 1) + 1) * den == 2 * (den * w) + 3 * den) by (nonlinear_arith);
        assert((2 * (w + 1) - 1) * den == 2 * (den * w) + den) by (nonlinear_arith);
    }
    m
}

// ---------------------------------------------------------------------
// To single precision
// ---------------------------------------------------------------------

/// Whether `q` is the key of a figure in single precision.
pub open spec fn is_narrowed(k: i64, q: i32) -> bool {
    if wide_nan(k) {
        q == NAN_KEY
    } else if k >= 0 {
        crate::quotient::rounds_to(wide_units(k as int), pow2(925) as int, q as int)
    } else {
        crate::quotient::rounds_to(wide_units(-k as int), pow2(925) as int, -q as int)
    }
}

/// A figure in single precision.
pub open spec fn narrowed(k: i64) -> i32 {
    choose|q: i32| is_narrowed(k, q)
}

/// A figure has one key in single precision.
pub proof fn narrowing_is_unique(k: i64, a: i32, b: i32)
    requires
        is_narrowed(k, a),
        is_narrowed(k, b),
    ensures
        a == b,
{
    lemma_pow2_pos(925);
    if !wide_nan(k) {
        if k >= 0 {
            crate::quotient::rounding_is_unique(
                wide_units(k as int),
                pow2(925) as int,
                a as int,
                b as int,
            );
        } else {
            crate::quotient::rounding_is_unique(
                wide_units(-k as int),
                pow2(925) as int,
                -a as int,
                -b as int,
            );
        }
    }
}

/// A magnitude in single precision.
fn narrow_magnitude(k: i64) -> (q: i32)
    requires
        0 <= k <= WIDE_INFINITY,
    ensures
        crate::quotient::rounds_to(wide_units(k as int), pow2(925) as int, q as int),
{
    let (m, y) = split(k);
    let ghost n = wide_units(k as int);
    let ghost d = pow2(925) as int;
    proof {
        lemma2_to64();
        lemma2_to64_rest();
        lemma_pow2_pos(925);
    }
    if y < 872 {
        // Less than half of the least positive number.
        proof {
            let s = (925 - y) as nat;
            lemma_pow2_adds(y as nat, s);
            lemma_pow2_adds(54, (s - 54) as nat);
            lemma_pow2_pos((s - 54) as nat);
            lemma_pow2_pos(y as nat);
            assert(m < pow2((s - 1) as nat)) by {
                if s - 1 > 53 {
                    lemma_pow2_strictly_increases(53, (s - 1) as nat);
                }
            }
            lemma_pow2_unfold(s);
            let py = pow2(y as nat) as int;
            let ps = pow2((s - 1) as nat) as int;
            assert(2 * n < d) by (nonlinear_arith)
                requires
                    n == m * py,
                    d == py * (2 * ps),
                    m < ps,
                    py > 0,
            ;
            assert(units(0) + units(1) == 1);
            assert((units(0) + units(1)) * d == d) by (nonlinear_arith)
                requires
                    units(0) + units(1) == 1,
            ;
        }
        return 0;
    }
    if y < 896 {
        // Below the normal numbers: counted in units.
        let den: u128 = big_two_to(925 - y);
        let ghost s = (925 - y) as nat;
        proof {
            lemma_pow2_adds(y as nat, s);
            assert(n * den == m * d) by (nonlinear_arith)
                requires
                    n == m * pow2(y as nat),
                    d == pow2(y as nat) * pow2(s),
                    den == pow2(s),
            ;
            assert(d * pow2(0) == d) by (nonlinear_arith)
                requires
                    pow2(0) == 1,
            ;
            if s > 30 {
                lemma_pow2_strictly_increases(30, s);
            }
            assert(m <= 0x100_0000 * den) by (nonlinear_arith)
                requires
                    m < 0x20_0000_0000_0000,
                    den >= 0x4000_0000,
            ;
        }
        let r: u128 = round_even_big(m as u128, den, Ghost(0x100_0000int), Ghost(0int));
        proof {
            crate::quotient::parts_are_nearest(n, d, 0, r as int, m as int, den as int);
        }
        return r as i32;
    }
    let x: u32 = y - 896;
    let den: u128 = 0x2000_0000;
    proof {
        lemma_pow2_adds(y as nat, 29);
        lemma_pow2_adds(925, x as nat);
        assert(y + 29 == 925 + x);
        assert(n * den == m * (d * pow2(x as nat))) by (nonlinear_arith)
            requires
                n == m * pow2(y as nat),
                d * pow2(x as nat) == pow2(y as nat) * pow2(29),
                den == pow2(29),
        ;
    }
    let r: u128 = round_even_big(
        m as u128,
        den,
        Ghost(0x100_0000int),
        Ghost(0x80_0000int),
    );
    proof {
        crate::quotient::parts_are_nearest(n, d, x as int, r as int, m as int, den as int);
    }
    let q: u64 = x as u64 * 0x80_0000 + r as u64;
    if q > INFINITY_KEY as u64 {
        INFINITY_KEY
    } else {
        q as i32
    }
}

/// A figure in single precision.
pub fn narrow(k: i64) -> (q: i32)
    ensures
        is_narrowed(k, q),
        q == narrowed(k),
{
    let q: i32 = if k > WIDE_INFINITY || k < -WIDE_INFINITY {
        NAN_KEY
    } else if k >= 0 {
        narrow_magnitude(k)
    } else {
        -narrow_magnitude(-k)
    };
    proof {
        assert(is_narrowed(k, q));
        narrowing_is_unique(k, q, narrowed(k));
    }
    q
}

// ---------------------------------------------------------------------
// The hundredth part
// ---------------------------------------------------------------------

/// Whether `q` is the key of the hundredth part of a figure.
pub open spec fn is_hundredth(k: i64, q: i64) -> bool {
    if wide_nan(k) {
        q == WIDE_NAN
    } else if !wide_finite(k) {
        q == k
    } else if k >= 0 {
        wide_rounds_to(wide_units(k as int), 100, q as int)
    } else {
        wide_rounds_to(wide_units(-k as int), 100, -q as int)
    }
}

/// The hundredth part of a figure.
pub open spec fn hundredth_of(k: i64) -> i64 {
    choose|q: i64| is_hundredth(k, q)
}

/// A figure has one hundredth part.
pub proof fn hundredth_is_unique(k: i64, a: i64, b: i64)
    requires
        is_hundredth(k, a),
        is_hundredth(k, b),
    ensures
        a == b,
{
    if wide_finite(k) {
        if k >= 0 {
            wide_rounding_is_unique(wide_units(k as int), 100, a as int, b as int);
        } else {
            wide_rounding_is_unique(wide_units(-k as int), 100, -a as int, -b as int);
        }
    }
}

/// The hundredth part of a magnitude.
fn hundredth_magnitude(k: i64) -> (q: i64)
    requires
        0 <= k < WIDE_INFINITY,
    ensures
        wide_rounds_to(wide_units(k as int), 100, q as int),
{
    let (m, y) = split(k);
    let ghost n = wide_units(k as int);
    proof {
        lemma2_to64();
    }
    // Seven places make up for the division where the mantissa is small
    // enough, else six.
    let j: u32 = if m as u128 * 128 < 0x20_0000_0000_0000 * 100 {
        7
    } else {
        6
    };
    if y <= j {
        let p: u128 = big_two_to(y);
        proof {
            if y < 7 {
                lemma_pow2_strictly_increases(y as nat, 7);
            }
            assert(m * p <= 0x20_0000_0000_0000 * 0x80) by (nonlinear_arith)
                requires
                    m < 0x20_0000_0000_0000,
                    p <= 0x80,
            ;
            assert(m * p <= 0x20_0000_0000_0000 * 100) by {
                if y <= 6 {
                    if y < 6 {
                        lemma_pow2_strictly_increases(y as nat, 6);
                    }
                    assert(m * p <= 0x20_0000_0000_0000 * 0x40) by (nonlinear_arith)
                        requires
                            m < 0x20_0000_0000_0000,
                            p <= 0x40,
                    ;
                } else {
                    assert(p == 128);
                    assert(m * p == m * 128) by (nonlinear_arith)
                        requires
                            p == 128,
                    ;
                }
            }
        }
        let num: u128 = m as u128 * p;
        let r: u128 = round_even_big(num, 100, Ghost(0x20_0000_0000_0000int), Ghost(0int));
        proof {
            assert(n * 100 == num * (100 * pow2(0))) by (nonlinear_arith)
                requires
                    n == num,
                    pow2(0) == 1,
            ;
            wide_parts_are_nearest(n, 100, 0, r as int, num as int, 100);
        }
        return r as i64;
    }
    let x: u32 = y - j;
    let num: u128 = if j == 7 {
        m as u128 * 128
    } else {
        m as u128 * 64
    };
    let r: u128 = round_even_big(
        num,
        100,
        Ghost(0x20_0000_0000_0000int),
        Ghost(0x10_0000_0000_0000int),
    );
    proof {
        lemma_pow2_adds(j as nat, x as nat);
        assert(num == m * pow2(j as nat));
        assert(n * 100 == num * (100 * pow2(x as nat))) by (nonlinear_arith)
            requires
                n == m * pow2(y as nat),
                pow2(y as nat) == pow2(j as nat) * pow2(x as nat),
                num == m * pow2(j as nat),
        ;
        wide_parts_are_nearest(n, 100, x as int, r as int, num as int, 100);
    }
    let q: i64 = x as i64 * 0x10_0000_0000_0000 + r as i64;
    if q > WIDE_INFINITY {
        WIDE_INFINITY
    } else {
        q
    }
}

/// The hundredth part of a figure.
pub fn hundredth(k: i64) -> (q: i64)
    ensures
        is_hundredth(k, q),
        q == hundredth_of(k),
{
    let q: i64 = if k > WIDE_INFINITY || k < -WIDE_INFINITY {
        WIDE_NAN
    } else if k == WIDE_INFINITY || k == -WIDE_INFINITY {
        k
    } else if k >= 0 {
        hundredth_magnitude(k)
    } else {
        -hundredth_magnitude(-k)
    };
    proof {
        assert(is_hundredth(k, q));
        hundredth_is_unique(k, q, hundredth_of(k));
    }
    q
}

// ---------------------------------------------------------------------
// Differences
// ---------------------------------------------------------------------

/// The number with a finite key, in units of the smallest positive
/// number.
pub open spec fn wide_signed(k: i64) -> int {
    if k >= 0 {
        wide_units(k as int)
    } else {
        -wide_units(-k as int)
    }
}

/// Whether `q` is the key of the difference of two figures.
pub open spec fn is_difference(a: i64, b: i64, q: i64) -> bool {
    if wide_nan(a) || wide_nan(b) || (!wide_finite(a) && a == b) {
        q == WIDE_NAN
    } else if !wide_finite(a) {
        q == a
    } else if !wide_finite(b) {
        q == -b
    } else {
        let n = wide_signed(a) - wide_signed(b);
        if n >= 0 {
            wide_rounds_to(n, 1, q as int)
        } else {
            wide_rounds_to(-n, 1, -q as int)
        }
    }
}

/// The difference of two figures.
pub open spec fn difference_of(a: i64, b: i64) -> i64 {
    choose|q: i64| is_difference(a, b, q)
}

/// Two figures have one difference.
pub proof fn difference_is_unique(a: i64, b: i64, p: i64, q: i64)
    requires
        is_difference(a, b, p),
        is_difference(a, b, q),
    ensures
        p == q,
{
    if wide_finite(a) && wide_finite(b) {
        let n = wide_signed(a) - wide_signed(b);
        if n >= 0 {
            wide_rounding_is_unique(n, 1, p as int, q as int);
        } else {
            wide_rounding_is_unique(-n, 1, -p as int, -q as int);
        }
    }
}

/// A figure less itself is nothing, and a figure less nothing is itself.
pub proof fn trivial_differences(a: i64)
    requires
        wide_finite(a),
    ensures
        is_difference(a, a, 0),
        is_difference(a, 0, a),
{
    let m = if a >= 0 {
        a as int
    } else {
        -a as int
    };
    assert(wide_units(0) == 0 && wide_units(1) == 1);
    if m > 0 {
        wide_units_rise(m - 1, m);
        wide_units_rise(0, m);
    }
    wide_units_rise(m, m + 1);
    let x = wide_units(m);
    let lo = wide_units(m - 1) + x;
    let hi = x + wide_units(m + 1);
    assert(lo * 1 == lo && hi * 1 == hi);
    assert((wide_units(0) + wide_units(1)) * 1 == 1);
}

/// The place of the first digit of a number.
fn top_place(c: u128) -> (r: u32)
    requires
        0 < c < 0x40_0000_0000_0000_0000_0000_0000_0000,
    ensures
        r < 118,
        pow2(r as nat) <= c < pow2((r + 1) as nat),
{
    proof {
        lemma2_to64();
        lemma2_to64_rest();
        lemma_pow2_adds(63, 55);
        assert(pow2(118) == 0x40_0000_0000_0000_0000_0000_0000_0000) by (nonlinear_arith)
            requires
                pow2(118) == pow2(63) * pow2(55),
                pow2(63) == 0x8000_0000_0000_0000,
                pow2(55) == 0x80_0000_0000_0000,
        ;
    }
    let mut r: u32 = 0;
    let mut p: u128 = 1;
    while p * 2 <= c
        invariant
            0 < c < 0x40_0000_0000_0000_0000_0000_0000_0000,
            pow2(118) == 0x40_0000_0000_0000_0000_0000_0000_0000,
            r < 118,
            p == pow2(r as nat),
            p <= c,
        decreases c - p,
    {
        proof {
            lemma_pow2_unfold((r + 1) as nat);
            lemma_pow2_pos(r as nat);
            if r + 1 >= 118 {
                if r + 1 > 118 {
                    lemma_pow2_strictly_increases(118, (r + 1) as nat);
                }
            }
        }
        p = p * 2;
        r += 1;
    }
    proof {
        lemma_pow2_unfold((r + 1) as nat);
    }
    r
}

/// The key nearest to a number with places behind it.
fn round_scaled(c: u128, y: u32) -> (q: i64)
    requires
        c < 0x40_0000_0000_0000_0000_0000_0000_0000,
        y <= 2046,
    ensures
        wide_rounds_to(c * pow2(y as nat), 1, q as int),
{
    let ghost n = c * pow2(y as nat);
    proof {
        lemma2_to64();
        lemma2_to64_rest();
    }
    if c == 0 {
        proof {
            assert(n == 0) by (nonlinear_arith)
                requires
                    n == c * pow2(y as nat),
                    c == 0,
            ;
            assert(wide_units(0) == 0 && wide_units(1) == 1);
            assert((wide_units(0) + wide_units(1)) * 1 == 1);
        }
        return 0;
    }
    let top: u32 = top_place(c);
    if top >= 52 {
        let s: u32 = top - 52;
        let den: u128 = big_two_to(s);
        let x: u32 = y + s;
        proof {
            lemma_pow2_adds(52, s as nat);
            lemma_pow2_adds(53, s as nat);
            lemma_pow2_adds(y as nat, s as nat);
            assert(c <= 0x20_0000_0000_0000 * den);
            assert(0x10_0000_0000_0000 * den <= c);
            assert(n * den == c * (1 * pow2(x as nat))) by (nonlinear_arith)
                requires
                    n == c * pow2(y as nat),
                    den == pow2(s as nat),
                    pow2(x as nat) == pow2(y as nat) * pow2(s as nat),
            ;
        }
        let m: u128 = round_even_big(
            c,
            den,
            Ghost(0x20_0000_0000_0000int),
            Ghost(0x10_0000_0000_0000int),
        );
        proof {
            wide_parts_are_nearest(n, 1, x as int, m as int, c as int, den as int);
        }
        if x >= 2046 {
            return WIDE_INFINITY;
        }
        let q: i64 = x as i64 * 0x10_0000_0000_0000 + m as i64;
        return if q > WIDE_INFINITY {
            WIDE_INFINITY
        } else {
            q
        };
    }
    let room: u32 = 52 - top;
    let u: u32 = if room < y {
        room
    } else {
        y
    };
    let x: u32 = y - u;
    let p: u128 = big_two_to(u);
    proof {
        lemma_pow2_adds(top as nat, room as nat);
        lemma_pow2_adds((top + 1) as nat, room as nat);
        lemma_pow2_adds(u as nat, x as nat);
        if u < room {
            lemma_pow2_strictly_increases(u as nat, room as nat);
        }
        lemma_pow2_pos(room as nat);
        assert(c * p <= 0x20_0000_0000_0000) by (nonlinear_arith)
            requires
                c <= pow2((top + 1) as nat),
                p <= pow2(room as nat),
                pow2((top + 1) as nat) * pow2(room as nat) == 0x20_0000_0000_0000,
        ;
    }
    let m: u128 = c * p;
    proof {
        if x > 0 {
            assert(u == room);
            assert(m >= 0x10_0000_0000_0000) by (nonlinear_arith)
                requires
                    m == c * p,
                    p == pow2(room as nat),
                    pow2(top as nat) <= c,
                    pow2(top as nat) * pow2(room as nat) == 0x10_0000_0000_0000,
                    p > 0,
            ;
        }
        assert(n * 1 == m * (1 * pow2(x as nat))) by (nonlinear_arith)
            requires
                n == c * pow2(y as nat),
                m == c * p,
                pow2(y as nat) == p * pow2(x as nat),
        ;
        assert((2 * m - 1) * 1 == 2 * m - 1 && (2 * m + 1) * 1 == 2 * m + 1);
        wide_parts_are_nearest(n, 1, x as int, m as int, m as int, 1);
    }
    let q: i64 = x as i64 * 0x10_0000_0000_0000 + m as i64;
    if q > WIDE_INFINITY {
        WIDE_INFINITY
    } else {
        q
    }
}

/// A great number with a much smaller one added or taken away is the
/// great number.
proof fn small_is_lost(a: int, ma: int, ya: int, b: int, n: int)
    requires
        a == ya * 0x10_0000_0000_0000 + ma,
        0x10_0000_0000_0000 <= ma < 0x20_0000_0000_0000,
        1 <= ya,
        a < WIDE_INFINITY,
        0 <= b,
        4 * b < pow2(ya as nat),
        n == wide_units(a) + b || n == wide_units(a) - b,
    ensures
        wide_rounds_to(n, 1, a),
{
    let s = pow2(ya as nat) as int;
    wide_units_of_parts(ya, ma);
    wide_units_of_parts(ya, ma + 1);
    assert(a + 1 == ya * 0x10_0000_0000_0000 + (ma + 1));
    let u = wide_units(a);
    let hi = wide_units(a + 1);
    let lo = wide_units(a - 1);
    assert(hi == u + s) by (nonlinear_arith)
        requires
            u == ma * s,
            hi == (ma + 1) * s,
    ;
    if ma > 0x10_0000_0000_0000 {
        wide_units_of_parts(ya, ma - 1);
        assert(a - 1 == ya * 0x10_0000_0000_0000 + (ma - 1));
        assert(lo == u - s) by (nonlinear_arith)
            requires
                u == ma * s,
                lo == (ma - 1) * s,
        ;
    } else {
        assert(a - 1 == (ya - 1) * 0x10_0000_0000_0000 + 0x1f_ffff_ffff_ffff);
        wide_units_of_parts(ya - 1, 0x1f_ffff_ffff_ffff);
        lemma_pow2_unfold(ya as nat);
        let h = pow2((ya - 1) as nat) as int;
        assert(lo == 0x1f_ffff_ffff_ffff * h);
        assert(u == 0x10_0000_0000_0000 * s);
        assert(2 * lo == 2 * u - s);
    }
    let x = lo + u;
    let z = u + hi;
    assert(x * 1 == x && z * 1 == z);
}

/// The key of the sum of two magnitudes, or of their difference.
fn combine(a: i64, b: i64, plus: bool) -> (q: i64)
    requires
        0 <= b <= a < WIDE_INFINITY,
    ensures
        wide_rounds_to(
            if plus {
                wide_units(a as int) + wide_units(b as int)
            } else {
                wide_units(a as int) - wide_units(b as int)
            },
            1,
            q as int,
        ),
{
    let (ma, ya) = split(a);
    let (mb, yb) = split(b);
    let ghost n = if plus {
        wide_units(a as int) + wide_units(b as int)
    } else {
        wide_units(a as int) - wide_units(b as int)
    };
    proof {
        assert(yb <= ya);
        lemma2_to64();
        lemma2_to64_rest();
    }
    let shift: u32 = ya - yb;
    if shift > 64 {
        proof {
            lemma_pow2_adds(yb as nat, shift as nat);
            lemma_pow2_adds(64, (shift - 64) as nat);
            lemma_pow2_pos((shift - 64) as nat);
            lemma_pow2_pos(yb as nat);
            let py = pow2(yb as nat) as int;
            let ps = pow2(shift as nat) as int;
            assert(ps >= 0x1_0000_0000_0000_0000) by (nonlinear_arith)
                requires
                    ps == pow2(64) * pow2((shift - 64) as nat),
                    pow2(64) == 0x1_0000_0000_0000_0000,
                    pow2((shift - 64) as nat) >= 1,
            ;
            assert(4 * wide_units(b as int) < pow2(ya as nat)) by (nonlinear_arith)
                requires
                    wide_units(b as int) == mb * py,
                    pow2(ya as nat) == py * ps,
                    mb < 0x20_0000_0000_0000,
                    ps >= 0x1_0000_0000_0000_0000,
                    py > 0,
            ;
            assert(wide_units(b as int) >= 0) by (nonlinear_arith)
                requires
                    wide_units(b as int) == mb * py,
                    mb >= 0,
                    py > 0,
            ;
            small_is_lost(a as int, ma as int, ya as int, wide_units(b as int), n);
        }
        return a;
    }
    let p: u128 = big_two_to(shift);
    proof {
        if shift < 64 {
            lemma_pow2_strictly_increases(shift as nat, 64);
        }
        assert(ma * p <= 0x1f_ffff_ffff_ffff * 0x1_0000_0000_0000_0000) by (nonlinear_arith)
            requires
                ma <= 0x1f_ffff_ffff_ffff,
                p <= 0x1_0000_0000_0000_0000,
        ;
        lemma_pow2_adds(yb as nat, shift as nat);
        let py = pow2(yb as nat) as int;
        lemma_pow2_pos(yb as nat);
        assert(wide_units(a as int) == (ma * p) * py) by (nonlinear_arith)
            requires
                wide_units(a as int) == ma * pow2(ya as nat),
                pow2(ya as nat) == py * p,
        ;
        if a > b {
            wide_units_rise(b as int, a as int);
        }
        assert(mb <= ma * p) by (nonlinear_arith)
            requires
                mb * py <= (ma * p) * py,
                py > 0,
        ;
        assert((ma * p + mb) * py == (ma * p) * py + mb * py) by (nonlinear_arith);
        assert((ma * p - mb) * py == (ma * p) * py - mb * py) by (nonlinear_arith);
    }
    let big: u128 = ma as u128 * p;
    let c: u128 = if plus {
        big + mb as u128
    } else {
        big - mb as u128
    };
    round_scaled(c, yb)
}

/// The difference of two figures.
pub fn difference(a: i64, b: i64) -> (q: i64)
    ensures
        is_difference(a, b, q),
        q == difference_of(a, b),
{
    let nan: bool = a > WIDE_INFINITY || a < -WIDE_INFINITY || b > WIDE_INFINITY || b
        < -WIDE_INFINITY;
    let a_infinite: bool = a == WIDE_INFINITY || a == -WIDE_INFINITY;
    let b_infinite: bool = b == WIDE_INFINITY || b == -WIDE_INFINITY;
    let q: i64 = if nan || (a_infinite && a == b) {
        WIDE_NAN
    } else if a_infinite {
        a
    } else if b_infinite {
        -b
    } else {
        finite_difference(a, b)
    };
    proof {
        assert(is_difference(a, b, q));
        difference_is_unique(a, b, q, difference_of(a, b));
    }
    q
}

/// The difference of two finite figures.
fn finite_difference(a: i64, b: i64) -> (q: i64)
    requires
        wide_finite(a),
        wide_finite(b),
    ensures
        is_difference(a, b, q),
{
    if a >= 0 && b >= 0 {
        if a >= b {
            proof {
                if a > b {
                    wide_units_rise(b as int, a as int);
                }
            }
            combine(a, b, false)
        } else {
            proof {
                wide_units_rise(a as int, b as int);
            }
            -combine(b, a, false)
        }
    } else if a >= 0 {
        proof {
            wide_units_rise(0, -b as int);
            if a > 0 {
                wide_units_rise(0, a as int);
            }
        }
        if a >= -b {
            combine(a, -b, true)
        } else {
            combine(-b, a, true)
        }
    } else if b >= 0 {
        proof {
            wide_units_rise(0, -a as int);
            if b > 0 {
                wide_units_rise(0, b as int);
            }
        }
        if -a >= b {
            -combine(-a, b, true)
        } else {
            -combine(b, -a, true)
        }
    } else {
        if -b >= -a {
            proof {
                if -b > -a {
                    wide_units_rise(-a as int, -b as int);
                }
            }
            combine(-b, -a, false)
        } else {
            proof {
                wide_units_rise(-b as int, -a as int);
            }
            -combine(-a, -b, false)
        }
    }
}

/// The magnitude of a figure.
pub open spec fn magnitude(k: i64) -> i64 {
    if i64::MIN < k < 0 {
        (-k) as i64
    } else {
        k
    }
}

/// A figure, or nothing where it is negative or no number.
pub open spec fn not_below_zero(k: i64) -> i64 {
    if wide_nan(k) || k < 0 {
        0
    } else {
        k
    }
}

/// The magnitude of a figure.
pub fn magnitude_of(k: i64) -> (r: i64)
    ensures
        r == magnitude(k),
{
    if k < 0 && k > i64::MIN {
        -k
    } else {
        k
    }
}

/// A figure, or nothing where it is negative or no number.
pub fn at_least_zero(k: i64) -> (r: i64)
    ensures
        r == not_below_zero(k),
{
    if k < 0 || k > WIDE_INFINITY {
        0
    } else {
        k
    }
}

} // verus!
