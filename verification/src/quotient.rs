//! Whole numbers and quotients as order keys.
//!
//! The magnitude of a key is counted in units of the smallest positive
//! single-precision number, so that it is a whole number.

use crate::keys::{finite_key, nan_key, INFINITY_KEY};
use vstd::arithmetic::power2::{
    lemma2_to64, lemma_pow2_adds, lemma_pow2_pos, lemma_pow2_unfold, pow2,
};
use vstd::prelude::*;

verus! {

/// The magnitude of the number with the key `k >= 0`, in units of the
/// smallest positive number. The key of infinity stands for the power of
/// two after the last finite number.
pub open spec fn units(k: int) -> int {
    if k < 0x80_0000 {
        k
    } else {
        (0x80_0000 + k % 0x80_0000) * pow2((k / 0x80_0000 - 1) as nat)
    }
}

/// A greater key has a greater magnitude.
pub proof fn units_rise(a: int, b: int)
    requires
        0 <= a < b,
    ensures
        units(a) < units(b),
    decreases b - a,
{
    if a + 1 < b {
        units_rise(a, b - 1);
        units_rise(b - 1, b);
    } else if b < 0x80_0000 {
    } else if b == 0x80_0000 {
        lemma2_to64();
        assert(units(b) == 0x80_0000 * pow2(0));
    } else if b % 0x80_0000 != 0 {
        let e = (b / 0x80_0000 - 1) as nat;
        assert(a / 0x80_0000 == b / 0x80_0000 && a % 0x80_0000 == b % 0x80_0000 - 1);
        lemma_pow2_pos(e);
        assert((0x80_0000 + a % 0x80_0000) * pow2(e) < (0x80_0000 + b % 0x80_0000) * pow2(e))
            by (nonlinear_arith)
            requires
                a % 0x80_0000 < b % 0x80_0000,
                pow2(e) > 0,
        ;
    } else {
        let e = (b / 0x80_0000 - 1) as nat;
        assert(a / 0x80_0000 == b / 0x80_0000 - 1 && a % 0x80_0000 == 0x7f_ffff);
        lemma_pow2_unfold(e);
        lemma_pow2_pos((e - 1) as nat);
        assert(units(a) == 0xff_ffff * pow2((e - 1) as nat));
        assert(units(b) == 0x80_0000 * pow2(e));
    }
}

/// The key that stands for a result that is no number.
pub const NAN_KEY: i32 = 0x7fc0_0000;

/// Whether `k` is the key of the whole number `n`.
pub open spec fn is_whole(k: i32, n: nat) -> bool {
    0 <= k < INFINITY_KEY && units(k as int) == n * pow2(149)
}

/// The key of the whole number `n`.
pub open spec fn whole_key(n: nat) -> i32 {
    choose|k: i32| is_whole(k, n)
}

/// A whole number has one key.
pub proof fn whole_is_unique(a: i32, b: i32, n: nat)
    requires
        is_whole(a, n),
        is_whole(b, n),
    ensures
        a == b,
{
    if a < b {
        units_rise(a as int, b as int);
    } else if b < a {
        units_rise(b as int, a as int);
    }
}

/// Greater whole numbers have greater keys.
pub proof fn whole_rises(a: i32, n: nat, b: i32, m: nat)
    requires
        is_whole(a, n),
        is_whole(b, m),
        n <= m,
    ensures
        a <= b,
{
    lemma_pow2_pos(149);
    if b < a {
        units_rise(b as int, a as int);
        assert(n * pow2(149) <= m * pow2(149)) by (nonlinear_arith)
            requires
                n <= m,
                pow2(149) > 0,
        ;
    }
}

/// A mantissa of twenty-four bits and an exponent for the key `k > 0`.
pub open spec fn is_scaled(k: int, m: int, y: int) -> bool {
    &&& 0x80_0000 <= m < 0x100_0000
    &&& 0 <= y <= 277
    &&& units(k) * pow2(23) == m * pow2(y as nat)
}

/// Shifts a positive number of at most twenty-four bits up until it
/// fills them: the shifted number and the number of places.
fn fill_up(n: u32) -> (r: (u32, u32))
    requires
        0 < n < 0x100_0000,
    ensures
        0x80_0000 <= r.0 < 0x100_0000,
        r.1 <= 23,
        r.0 == n * pow2(r.1 as nat),
{
    let mut m: u32 = n;
    let mut s: u32 = 0;
    proof {
        lemma2_to64();
    }
    while m < 0x80_0000
        invariant
            0 < n < 0x100_0000,
            0 < m < 0x100_0000,
            m == n * pow2(s as nat),
            s <= 23,
            pow2(23) == 0x80_0000,
        decreases 0x100_0000 - m,
    {
        proof {
            if s >= 23 {
                assert(n * pow2(23) >= 0x80_0000) by (nonlinear_arith)
                    requires
                        n >= 1,
                        pow2(23) == 0x80_0000,
                ;
            }
            lemma_pow2_unfold((s + 1) as nat);
            assert(n * (2 * pow2(s as nat)) == 2 * (n * pow2(s as nat))) by (nonlinear_arith);
        }
        m = m * 2;
        s = s + 1;
    }
    (m, s)
}

/// The key of a whole number below the first one that has none.
pub fn key_of_count(n: u32) -> (k: i32)
    requires
        n < 0x100_0000,
    ensures
        is_whole(k, n as nat),
        k == whole_key(n as nat),
{
    proof {
        lemma2_to64();
    }
    if n == 0 {
        proof {
            assert(is_whole(0, 0));
            whole_is_unique(0, whole_key(0), 0);
        }
        return 0;
    }
    let (m, s) = fill_up(n);
    let e: u32 = 150 - s;
    let k: i32 = (e * 0x80_0000 + (m - 0x80_0000)) as i32;
    proof {
        assert(k / 0x80_0000 == e);
        assert(k % 0x80_0000 == m - 0x80_0000);
        lemma_pow2_adds(s as nat, (149 - s) as nat);
        assert((n * pow2(s as nat)) * pow2((149 - s) as nat) == n * (pow2(s as nat) * pow2(
            (149 - s) as nat,
        ))) by (nonlinear_arith);
        assert(is_whole(k, n as nat));
        whole_is_unique(k, whole_key(n as nat), n as nat);
    }
    k
}

/// The mantissa and the exponent of a positive finite key.
fn scaled(k: i32) -> (r: (u32, u32))
    requires
        0 < k < INFINITY_KEY,
    ensures
        is_scaled(k as int, r.0 as int, r.1 as int),
{
    proof {
        lemma2_to64();
    }
    if k < 0x80_0000 {
        let (m, s) = fill_up(k as u32);
        proof {
            lemma_pow2_adds(s as nat, (23 - s) as nat);
            assert((k * pow2(s as nat)) * pow2((23 - s) as nat) == k * (pow2(s as nat) * pow2(
                (23 - s) as nat,
            ))) by (nonlinear_arith);
        }
        (m, 23 - s)
    } else {
        let e: u32 = (k / 0x80_0000) as u32;
        let m: u32 = (0x80_0000 + k % 0x80_0000) as u32;
        proof {
            lemma_pow2_adds((e - 1) as nat, 23);
            assert((m * pow2((e - 1) as nat)) * pow2(23) == m * (pow2((e - 1) as nat) * pow2(23)))
                by (nonlinear_arith);
        }
        (m, e + 22)
    }
}

/// Whether `q` is the key of the number nearest to the fraction `n / d`
/// of units: the fraction lies no farther than half way to either
/// neighbour, and on a half way point the key is even.
pub open spec fn rounds_to(n: int, d: int, q: int) -> bool {
    &&& 0 <= q <= INFINITY_KEY
    &&& q > 0 ==> ((units(q - 1) + units(q)) * d < 2 * n || ((units(q - 1) + units(q)) * d == 2 * n
        && q % 2 == 0))
    &&& q < INFINITY_KEY ==> (2 * n < (units(q) + units(q + 1)) * d || (2 * n == (units(q) + units(
        q + 1,
    )) * d && q % 2 == 0))
}

/// Whether `q` is the key of the number nearest to the quotient of the
/// numbers with the keys `f >= 0` and `p > 0`.
pub open spec fn is_nearest(f: int, p: int, q: int) -> bool {
    rounds_to(units(f) * pow2(149), units(p), q)
}

/// A fraction is rounded to one key.
pub proof fn rounding_is_unique(n: int, d: int, a: int, b: int)
    requires
        0 < d,
        rounds_to(n, d, a),
        rounds_to(n, d, b),
    ensures
        a == b,
{
    if a <= b {
        roundings_meet(n, d, a, b);
    } else {
        roundings_meet(n, d, b, a);
    }
}

proof fn roundings_meet(n: int, d: int, a: int, b: int)
    requires
        0 < d,
        rounds_to(n, d, a),
        rounds_to(n, d, b),
        a <= b,
    ensures
        a == b,
{
    if a + 1 < b {
        units_rise(a + 1, b);
        if a + 1 < b - 1 {
            units_rise(a + 1, b - 1);
        }
        units_rise(a, a + 1);
        let x = units(a) + units(a + 1);
        let y = units(b - 1) + units(b);
        assert(x * d < y * d) by (nonlinear_arith)
            requires
                x < y,
                d > 0,
        ;
    } else if a < b {
        assert(b - 1 == a && b == a + 1);
    }
}

/// Comparing with a fraction: where `n / d` is `num / den` times `s`,
/// the multiples of half of `s` lie about the one as they lie about the
/// other.
pub(crate) proof fn same_side(n: int, d: int, num: int, den: int, s: int, c: int)
    requires
        n * den == num * (d * s),
        d > 0,
        den > 0,
        s > 0,
    ensures
        c * den < 2 * num ==> (c * s) * d < 2 * n,
        c * den == 2 * num ==> (c * s) * d == 2 * n,
        2 * num < c * den ==> 2 * n < (c * s) * d,
{
    let w = d * s;
    assert(w > 0) by (nonlinear_arith)
        requires
            w == d * s,
            d > 0,
            s > 0,
    ;
    assert((c * s) * d == c * w) by (nonlinear_arith)
        requires
            w == d * s,
    ;
    assert((2 * num - c * den) * w == (2 * n - c * w) * den) by (nonlinear_arith)
        requires
            n * den == num * w,
    ;
    let x = 2 * num - c * den;
    let z = 2 * n - c * w;
    assert(x * w == z * den);
    assert(x > 0 ==> z > 0) by (nonlinear_arith)
        requires
            x * w == z * den,
            w > 0,
            den > 0,
    ;
    assert(x < 0 ==> z < 0) by (nonlinear_arith)
        requires
            x * w == z * den,
            w > 0,
            den > 0,
    ;
    assert(x == 0 ==> z == 0) by (nonlinear_arith)
        requires
            x * w == z * den,
            w > 0,
            den > 0,
    ;
}

/// The magnitude of a key that is put together from a place and a
/// mantissa.
proof fn units_of_parts(x: int, m: int)
    requires
        0 <= x,
        0 <= m <= 0x100_0000,
        x > 0 ==> 0x80_0000 <= m,
    ensures
        units(x * 0x80_0000 + m) == m * pow2(x as nat),
{
    let k = x * 0x80_0000 + m;
    lemma2_to64();
    if x == 0 && m < 0x80_0000 {
        assert(k == m);
        assert(m * pow2(x as nat) == m) by (nonlinear_arith)
            requires
                pow2(x as nat) == 1,
        ;
    } else if m < 0x100_0000 {
        assert(k / 0x80_0000 == x + 1 && k % 0x80_0000 == m - 0x80_0000);
        assert(0x80_0000 + k % 0x80_0000 == m);
        assert(units(k) == m * pow2(x as nat));
    } else {
        assert(k / 0x80_0000 == x + 2 && k % 0x80_0000 == 0);
        lemma_pow2_unfold((x + 1) as nat);
        assert(units(k) == 0x80_0000 * pow2((x + 1) as nat));
        assert(m * pow2(x as nat) == 0x100_0000 * pow2(x as nat)) by (nonlinear_arith)
            requires
                m == 0x100_0000,
        ;
    }
}

/// A rounded mantissa lies no farther than half way below its upper
/// neighbour.
pub(crate) proof fn parts_above(n: int, d: int, x: int, m: int, num: int, den: int)
    requires
        d > 0,
        0 <= x,
        0 <= m <= 0x100_0000,
        x > 0 ==> 0x80_0000 <= m,
        den > 0,
        n * den == num * (d * pow2(x as nat)),
        2 * num <= (2 * m + 1) * den,
        2 * num == (2 * m + 1) * den ==> m % 2 == 0,
    ensures
        ({
            let q = x * 0x80_0000 + m;
            2 * n < (units(q) + units(q + 1)) * d || (2 * n == (units(q) + units(q + 1)) * d && m
                % 2 == 0)
        }),
{
    let q = x * 0x80_0000 + m;
    let s = pow2(x as nat) as int;
    lemma_pow2_pos(x as nat);
    units_of_parts(x, m);
    same_side(n, d, num, den, s, 2 * m + 1);
    let a = units(q);
    let b = units(q + 1);
    if m < 0x100_0000 {
        units_of_parts(x, m + 1);
        assert(q + 1 == x * 0x80_0000 + (m + 1));
        assert(a + b == (2 * m + 1) * s) by (nonlinear_arith)
            requires
                a == m * s,
                b == (m + 1) * s,
        ;
    } else {
        assert(q + 1 == (x + 1) * 0x80_0000 + 0x80_0001);
        units_of_parts(x + 1, 0x80_0001);
        lemma_pow2_unfold((x + 1) as nat);
        assert(b == 0x80_0001 * (2 * s));
        assert(a + b == (2 * m + 1) * s + s) by (nonlinear_arith)
            requires
                a == m * s,
                b == 0x80_0001 * (2 * s),
                m == 0x100_0000,
        ;
        let w = (2 * m + 1) * s;
        assert(w * d < (w + s) * d) by (nonlinear_arith)
            requires
                s > 0,
                d > 0,
        ;
    }
}

/// A rounded mantissa lies no farther than half way above its lower
/// neighbour.
pub(crate) proof fn parts_below(n: int, d: int, x: int, m: int, num: int, den: int)
    requires
        d > 0,
        0 <= x,
        0 <= m <= 0x100_0000,
        x > 0 ==> 0x80_0000 <= m && 0x80_0000 * den <= num,
        den > 0,
        n * den == num * (d * pow2(x as nat)),
        (2 * m - 1) * den <= 2 * num,
        (2 * m - 1) * den == 2 * num ==> m % 2 == 0,
        x * 0x80_0000 + m > 0,
    ensures
        ({
            let q = x * 0x80_0000 + m;
            (units(q - 1) + units(q)) * d < 2 * n || ((units(q - 1) + units(q)) * d == 2 * n && m
                % 2 == 0)
        }),
{
    let q = x * 0x80_0000 + m;
    let s = pow2(x as nat) as int;
    lemma_pow2_pos(x as nat);
    units_of_parts(x, m);
    let a = units(q - 1);
    let b = units(q);
    if m > 0x80_0000 || x == 0 {
        same_side(n, d, num, den, s, 2 * m - 1);
        units_of_parts(x, m - 1);
        assert(q - 1 == x * 0x80_0000 + (m - 1));
        assert(a + b == (2 * m - 1) * s) by (nonlinear_arith)
            requires
                a == (m - 1) * s,
                b == m * s,
        ;
    } else {
        units_rise(q - 1, q);
        same_side(n, d, num, den, s, 2 * m);
        assert((2 * m) * den <= 2 * num) by (nonlinear_arith)
            requires
                0x80_0000 * den <= num,
                m == 0x80_0000,
        ;
        assert((a + b) * d < ((2 * m) * s) * d) by (nonlinear_arith)
            requires
                a < b,
                b == m * s,
                d > 0,
        ;
    }
}

/// What is put together from a rounded mantissa is nearest.
pub(crate) proof fn parts_are_nearest(n: int, d: int, x: int, m: int, num: int, den: int)
    requires
        0 < d,
        0 <= x,
        0 <= m <= 0x100_0000,
        x > 0 ==> 0x80_0000 <= m && 0x80_0000 * den <= num,
        den > 0,
        n * den == num * (d * pow2(x as nat)),
        (2 * m - 1) * den <= 2 * num <= (2 * m + 1) * den,
        (2 * m - 1) * den == 2 * num || 2 * num == (2 * m + 1) * den ==> m % 2 == 0,
    ensures
        x * 0x80_0000 + m <= INFINITY_KEY ==> rounds_to(n, d, x * 0x80_0000 + m),
        x * 0x80_0000 + m > INFINITY_KEY ==> rounds_to(n, d, INFINITY_KEY as int),
{
    let q = x * 0x80_0000 + m;
    assert(q % 2 == m % 2);
    parts_above(n, d, x, m, num, den);
    if q > 0 {
        parts_below(n, d, x, m, num, den);
    }
    if q > INFINITY_KEY {
        let i = INFINITY_KEY as int;
        units_rise(i - 1, q - 1);
        units_rise(i, q);
        let a = units(i - 1) + units(i);
        let b = units(q - 1) + units(q);
        assert(a * d < b * d) by (nonlinear_arith)
            requires
                a < b,
                d > 0,
        ;
    }
}

/// The fraction of two scaled numbers.
proof fn scaled_fraction(
    f: int,
    p: int,
    mf: int,
    yf: int,
    mp: int,
    yp: int,
    b: int,
    up: int,
    down: int,
    x: int,
)
    requires
        is_scaled(f, mf, yf),
        is_scaled(p, mp, yp),
        0 <= b,
        0 <= up,
        0 <= down,
        0 <= x,
        yf + 149 + down == yp + b + up + x,
    ensures
        (units(f) * pow2(149)) * (mp * pow2(down as nat)) == ((mf * pow2(b as nat)) * pow2(
            up as nat,
        )) * (units(p) * pow2(x as nat)),
{
    let uf = units(f);
    let up_ = units(p);
    let t = pow2(23) as int;
    let left = (uf * pow2(149)) * (mp * pow2(down as nat));
    let right = ((mf * pow2(b as nat)) * pow2(up as nat)) * (up_ * pow2(x as nat));
    lemma2_to64();
    lemma_pow2_adds(yf as nat, 149);
    lemma_pow2_adds((yf + 149) as nat, down as nat);
    lemma_pow2_adds(yp as nat, b as nat);
    lemma_pow2_adds((yp + b) as nat, up as nat);
    lemma_pow2_adds((yp + b + up) as nat, x as nat);
    let a1 = pow2(yf as nat) as int;
    let a2 = pow2(149) as int;
    let a3 = pow2(down as nat) as int;
    let c1 = pow2(yp as nat) as int;
    let c2 = pow2(b as nat) as int;
    let c3 = pow2(up as nat) as int;
    let c4 = pow2(x as nat) as int;
    assert((a1 * a2) * a3 == ((c1 * c2) * c3) * c4);
    assert(left * t == ((uf * t) * (a2 * a3)) * mp) by (nonlinear_arith)
        requires
            left == (uf * a2) * (mp * a3),
    ;
    assert(((mf * a1) * (a2 * a3)) * mp == (mf * mp) * ((a1 * a2) * a3)) by (nonlinear_arith);
    assert(right * t == ((up_ * t) * ((c2 * c3) * c4)) * mf) by (nonlinear_arith)
        requires
            right == ((mf * c2) * c3) * (up_ * c4),
    ;
    assert(((mp * c1) * ((c2 * c3) * c4)) * mf == (mf * mp) * (((c1 * c2) * c3) * c4))
        by (nonlinear_arith);
    assert(left * t == right * t);
    assert(left == right) by (nonlinear_arith)
        requires
            left * t == right * t,
            t > 0,
    ;
}

/// Rounds a fraction to the nearest whole number, half way points to
/// the even one.
fn round_even(num: u64, den: u64) -> (m: u64)
    requires
        0 < den <= 0x1000_0000,
        num <= 0x100_0000 * den,
    ensures
        m <= 0x100_0000,
        (2 * m - 1) * den <= 2 * num <= (2 * m + 1) * den,
        (2 * m - 1) * den == 2 * num || 2 * num == (2 * m + 1) * den ==> m % 2 == 0,
        0x80_0000 * den <= num ==> 0x80_0000 <= m,
{
    let w: u64 = num / den;
    let r: u64 = num % den;
    proof {
        vstd::arithmetic::div_mod::lemma_fundamental_div_mod(num as int, den as int);
        assert(num == den * w + r);
        assert(0 <= r < den);
        assert(w <= 0x100_0000) by (nonlinear_arith)
            requires
                num == den * w + r,
                num <= 0x100_0000 * den,
                0 <= r < den,
        ;
        if 0x80_0000 * den <= num {
            assert(0x80_0000 <= w) by (nonlinear_arith)
                requires
                    0x80_0000 * den <= num,
                    num == den * w + r,
                    0 <= r < den,
            ;
        }
        assert(r > 0 ==> w < 0x100_0000) by (nonlinear_arith)
            requires
                num == den * w + r,
                num <= 0x100_0000 * den,
        ;
    }
    let m: u64 = if 2 * r > den || (2 * r == den && w % 2 == 1) {
        w + 1
    } else {
        w
    };
    proof {
        assert((2 * w + 1) * den == 2 * (den * w) + den) by (nonlinear_arith);
        assert((2 * w - 1) * den == 2 * (den * w) - den) by (nonlinear_arith);
        assert((2 * (w + 1) + 1) * den == 2 * (den * w) + 3 * den) by (nonlinear_arith);
        assert((2 * (w + 1) - 1) * den == 2 * (den * w) + den) by (nonlinear_arith);
    }
    m
}

/// The key of the number nearest to the quotient of two numbers that are
/// not negative.
fn nearest_quotient(f: i32, p: i32) -> (q: i32)
    requires
        0 <= f < INFINITY_KEY,
        0 < p < INFINITY_KEY,
    ensures
        is_nearest(f as int, p as int, q as int),
{
    proof {
        lemma2_to64();
        units_rise(0, p as int);
    }
    if f == 0 {
        proof {
            assert(units(0) == 0 && units(1) == 1);
            assert(0 * pow2(149) == 0) by (nonlinear_arith);
        }
        return 0;
    }
    let ghost n = units(f as int) * pow2(149);
    let ghost dd = units(p as int);
    let (mf, yf) = scaled(f);
    let (mp, yp) = scaled(p);
    let b: u32 = if mf < mp {
        1
    } else {
        0
    };
    let top: u64 = if mf < mp {
        2 * mf as u64
    } else {
        mf as u64
    };
    proof {
        assert(mf * 1 == mf && mf * 2 == 2 * mf);
        assert(top == mf * pow2(b as nat));
    }
    let d: i32 = yf as i32 + 149 - yp as i32 - b as i32;
    if d <= -2 {
        proof {
            let x = (yf + 149) as nat;
            let y = (yp + b) as nat;
            assert(y >= x + 2);
            lemma_pow2_adds(x, (y - x) as nat);
            lemma_pow2_adds(2, (y - x - 2) as nat);
            lemma_pow2_pos((y - x - 2) as nat);
            lemma_pow2_pos(x);
            lemma_pow2_adds(yp as nat, b as nat);
            lemma_pow2_adds(yf as nat, 149);
            lemma_pow2_pos(yp as nat);
            let t = pow2(23) as int;
            assert(n * t == mf * pow2(x)) by (nonlinear_arith)
                requires
                    n == units(f as int) * pow2(149),
                    units(f as int) * t == mf * pow2(yf as nat),
                    pow2(x) == pow2(yf as nat) * pow2(149),
            ;
            assert(4 * pow2(x) <= pow2(y)) by (nonlinear_arith)
                requires
                    pow2(y) == pow2(x) * pow2((y - x) as nat),
                    pow2((y - x) as nat) == 4 * pow2((y - x - 2) as nat),
                    pow2((y - x - 2) as nat) >= 1,
                    pow2(x) > 0,
            ;
            assert(4 * (mf * pow2(x)) <= mf * pow2(y)) by (nonlinear_arith)
                requires
                    4 * pow2(x) <= pow2(y),
                    mf >= 0,
            ;
            assert(mf * pow2(y) == top * pow2(yp as nat)) by (nonlinear_arith)
                requires
                    top == mf * pow2(b as nat),
                    pow2(y) == pow2(yp as nat) * pow2(b as nat),
            ;
            assert(top * pow2(yp as nat) < 2 * (mp * pow2(yp as nat))) by (nonlinear_arith)
                requires
                    top < 2 * mp,
                    pow2(yp as nat) > 0,
            ;
            assert(2 * (n * t) < dd * t);
            assert(2 * n < dd) by (nonlinear_arith)
                requires
                    2 * (n * t) < dd * t,
                    t > 0,
            ;
            assert((units(0) + units(1)) * dd == dd) by (nonlinear_arith)
                requires
                    units(0) + units(1) == 1,
            ;
        }
        return 0;
    }
    if d == -1 {
        let den: u64 = 2 * mp as u64;
        let m: u64 = round_even(top, den);
        proof {
            scaled_fraction(
                f as int,
                p as int,
                mf as int,
                yf as int,
                mp as int,
                yp as int,
                b as int,
                0,
                1,
                0,
            );
            assert(pow2(0) == 1 && pow2(1) == 2);
            assert(top * 1 == top && mp * 2 == den);
            assert(top * pow2(0) == top);
            assert(mp * pow2(1) == den);
            parts_are_nearest(n, dd, 0, m as int, top as int, den as int);
        }
        return m as i32;
    }
    let den: u64 = mp as u64;
    if d < 23 {
        let shift: u64 = power_of_two(d as u32);
        proof {
            vstd::arithmetic::power2::lemma_pow2_strictly_increases(d as nat, 23);
            assert(top * shift <= 0x100_0000 * den) by (nonlinear_arith)
                requires
                    top < 2 * den,
                    shift <= 0x80_0000,
                    shift >= 0,
                    top >= 0,
            ;
        }
        let num: u64 = top * shift;
        let m: u64 = round_even(num, den);
        proof {
            scaled_fraction(
                f as int,
                p as int,
                mf as int,
                yf as int,
                mp as int,
                yp as int,
                b as int,
                d as int,
                0,
                0,
            );
            assert(mp * pow2(0) == mp);
            parts_are_nearest(n, dd, 0, m as int, num as int, den as int);
        }
        return m as i32;
    }
    let num: u64 = top * 0x80_0000;
    let x: u32 = (d - 23) as u32;
    let m: u64 = round_even(num, den);
    proof {
        scaled_fraction(
            f as int,
            p as int,
            mf as int,
            yf as int,
            mp as int,
            yp as int,
            b as int,
            23,
            0,
            x as int,
        );
        assert(mp * pow2(0) == mp);
        assert(0x80_0000 * den <= num);
        assert(0x80_0000 <= m);
        parts_are_nearest(n, dd, x as int, m as int, num as int, den as int);
    }
    let q: u64 = x as u64 * 0x80_0000 + m;
    if q > INFINITY_KEY as u64 {
        INFINITY_KEY
    } else {
        q as i32
    }
}

/// A power of two.
fn power_of_two(e: u32) -> (r: u64)
    requires
        e <= 23,
    ensures
        r == pow2(e as nat),
        r <= 0x80_0000,
{
    let mut r: u64 = 1;
    let mut i: u32 = 0;
    proof {
        lemma2_to64();
    }
    while i < e
        invariant
            i <= e <= 23,
            r == pow2(i as nat),
            r <= 0x80_0000,
            pow2(23) == 0x80_0000,
        decreases e - i,
    {
        proof {
            lemma_pow2_unfold((i + 1) as nat);
            if i + 1 < 23 {
                vstd::arithmetic::power2::lemma_pow2_strictly_increases((i + 1) as nat, 23);
            }
        }
        r = r * 2;
        i += 1;
    }
    r
}

/// Whether `q` is the key of the quotient of the numbers with the keys
/// `f` and `p`, where `p` is positive.
pub open spec fn is_quotient(f: i32, p: i32, q: i32) -> bool {
    if nan_key(f) || (!finite_key(f) && p == INFINITY_KEY) {
        q == NAN_KEY
    } else if !finite_key(f) {
        q == f
    } else if p == INFINITY_KEY {
        q == 0
    } else if f >= 0 {
        is_nearest(f as int, p as int, q as int)
    } else {
        is_nearest(-f as int, p as int, -q as int)
    }
}

/// The key of the quotient of the numbers with the keys `f` and `p`,
/// where `p` is positive.
pub open spec fn quotient_of(f: i32, p: i32) -> i32 {
    choose|q: i32| is_quotient(f, p, q)
}

/// A quotient has one key.
pub proof fn quotient_is_unique(f: i32, p: i32, a: i32, b: i32)
    requires
        0 < p <= INFINITY_KEY,
        is_quotient(f, p, a),
        is_quotient(f, p, b),
    ensures
        a == b,
{
    units_rise(0, p as int);
    if finite_key(f) && p != INFINITY_KEY {
        if f >= 0 {
            rounding_is_unique(units(f as int) * pow2(149), units(p as int), a as int, b as int);
        } else {
            rounding_is_unique(
                units(-f as int) * pow2(149),
                units(p as int),
                -a as int,
                -b as int,
            );
        }
    }
}

/// The key of the quotient of two numbers, the second one positive.
pub fn quotient_key(f: i32, p: i32) -> (q: i32)
    requires
        0 < p <= INFINITY_KEY,
    ensures
        is_quotient(f, p, q),
        q == quotient_of(f, p),
{
    let q: i32 = if f > INFINITY_KEY || f < -INFINITY_KEY {
        NAN_KEY
    } else if f == INFINITY_KEY || f == -INFINITY_KEY {
        if p == INFINITY_KEY {
            NAN_KEY
        } else {
            f
        }
    } else if p == INFINITY_KEY {
        0
    } else if f >= 0 {
        nearest_quotient(f, p)
    } else {
        -nearest_quotient(-f, p)
    };
    proof {
        assert(is_quotient(f, p, q));
        quotient_is_unique(f, p, q, quotient_of(f, p));
    }
    q
}

} // verus!
