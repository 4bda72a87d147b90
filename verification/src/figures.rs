//! Measurements in whole figures.

use crate::api::PhotometrySlim;
use crate::doc::PhotometryStats;
use crate::keys::{nan_key, INFINITY_KEY};
use crate::product::signed_decimal;
use crate::quotient::units;
use crate::text::{decimal, owned, push_text, texts, to_decimal};
use vstd::arithmetic::div_mod::{lemma_fundamental_div_mod, lemma_fundamental_div_mod_converse};
use vstd::arithmetic::power2::{
    lemma2_to64, lemma2_to64_rest, lemma_pow2_adds, lemma_pow2_pos, lemma_pow2_strictly_increases,
    lemma_pow2_unfold, pow2,
};
use vstd::prelude::*;

verus! {

/// The whole number nearest to a magnitude, half way points upward.
pub open spec fn nearest_of(u: int) -> int {
    (2 * u + pow2(149)) / (pow2(150) as int)
}

/// The whole part of a magnitude.
pub open spec fn floor_of(u: int) -> int {
    u / (pow2(149) as int)
}

/// The lesser of two numbers.
pub open spec fn at_most(a: int, b: int) -> int {
    if a < b {
        a
    } else {
        b
    }
}

/// The whole number nearest to a measurement, half way points away from
/// zero, within sixty-four bits; zero for what is no number.
pub open spec fn nearest_whole(k: i32) -> int {
    if nan_key(k) {
        0
    } else if k >= 0 {
        at_most(nearest_of(units(k as int)), i64::MAX as int)
    } else {
        -at_most(nearest_of(units(-k as int)), 0x8000_0000_0000_0000)
    }
}

/// The whole part of a measurement, within thirty-two bits; zero for
/// what is negative or no number.
pub open spec fn whole_part(k: i32) -> int {
    if nan_key(k) || k < 0 {
        0
    } else {
        at_most(floor_of(units(k as int)), u32::MAX as int)
    }
}

/// A common factor does not change a quotient.
proof fn common_factor(a: int, b: int, c: int)
    requires
        0 <= a,
        0 < b,
        0 < c,
    ensures
        (a * c) / (b * c) == a / b,
{
    let q = a / b;
    let r = a % b;
    lemma_fundamental_div_mod(a, b);
    assert(a * c == (b * c) * q + r * c) by (nonlinear_arith)
        requires
            a == b * q + r,
    ;
    assert(0 <= r * c < b * c) by (nonlinear_arith)
        requires
            0 <= r < b,
            0 < c,
    ;
    assert(q * (b * c) == (b * c) * q) by (nonlinear_arith);
    lemma_fundamental_div_mod_converse(a * c, b * c, q, r * c);
}

/// The nearest whole number and the whole part of a magnitude with a
/// fraction.
proof fn fraction_parts(m: int, s: int)
    requires
        0 <= m,
        1 <= s <= 149,
    ensures
        nearest_of(m * pow2((149 - s) as nat)) == (m + pow2((s - 1) as nat)) / (pow2(
            s as nat,
        ) as int),
        floor_of(m * pow2((149 - s) as nat)) == m / (pow2(s as nat) as int),
{
    let c = pow2((149 - s) as nat) as int;
    let d = pow2((s - 1) as nat) as int;
    let b = pow2(s as nat) as int;
    lemma_pow2_pos((149 - s) as nat);
    lemma_pow2_pos(s as nat);
    lemma_pow2_pos((s - 1) as nat);
    lemma_pow2_adds(s as nat, (149 - s) as nat);
    lemma_pow2_adds((s - 1) as nat, (150 - s) as nat);
    lemma_pow2_unfold((150 - s) as nat);
    lemma_pow2_unfold(150);
    assert(pow2(149) == b * c);
    assert(pow2(149) == d * (2 * c));
    assert(2 * (m * c) + pow2(149) == (m + d) * (2 * c)) by (nonlinear_arith)
        requires
            pow2(149) == d * (2 * c),
    ;
    assert(pow2(150) == b * (2 * c)) by (nonlinear_arith)
        requires
            pow2(150) == 2 * pow2(149),
            pow2(149) == b * c,
    ;
    common_factor(m + d, b, 2 * c);
    common_factor(m, b, c);
}

/// The nearest whole number and the whole part of a magnitude without a
/// fraction.
proof fn whole_magnitude(m: int, t: int)
    requires
        0 <= m,
        0 <= t,
    ensures
        nearest_of(m * pow2((149 + t) as nat)) == m * pow2(t as nat),
        floor_of(m * pow2((149 + t) as nat)) == m * pow2(t as nat),
{
    let p = pow2(149) as int;
    let w = m * pow2(t as nat);
    lemma_pow2_pos(149);
    lemma_pow2_pos(t as nat);
    lemma_pow2_adds(149, t as nat);
    lemma_pow2_unfold(150);
    assert(m * (p * pow2(t as nat)) == w * p) by (nonlinear_arith)
        requires
            w == m * pow2(t as nat),
    ;
    assert(w >= 0) by (nonlinear_arith)
        requires
            w == m * pow2(t as nat),
            m >= 0,
            pow2(t as nat) > 0,
    ;
    assert(2 * (w * p) + p == (2 * p) * w + p) by (nonlinear_arith);
    assert(w * (2 * p) == (2 * p) * w) by (nonlinear_arith);
    lemma_fundamental_div_mod_converse(2 * (w * p) + p, 2 * p, w, p);
    lemma_fundamental_div_mod_converse(w * p, p, w, 0);
}

/// A power of two.
fn two_to(e: u32) -> (r: u64)
    requires
        e < 64,
    ensures
        r == pow2(e as nat),
{
    proof {
        lemma2_to64();
        lemma2_to64_rest();
    }
    let mut r: u64 = 1;
    let mut i: u32 = 0;
    while i < e
        invariant
            i <= e < 64,
            r == pow2(i as nat),
            pow2(63) == 0x8000_0000_0000_0000,
        decreases e - i,
    {
        proof {
            lemma_pow2_unfold((i + 1) as nat);
            if i + 1 < 63 {
                lemma_pow2_strictly_increases((i + 1) as nat, 63);
            }
        }
        r = r * 2;
        i += 1;
    }
    r
}

/// A magnitude in parts: its mantissa and the place of its last digit
/// above or below the point.
fn parts(k: i32) -> (r: (u64, i32))
    requires
        0x80_0000 <= k <= INFINITY_KEY,
    ensures
        0x80_0000 <= r.0 < 0x100_0000,
        -149 <= r.1 <= 105,
        units(k as int) == r.0 * pow2((149 + r.1) as nat),
{
    let e: i32 = k / 0x80_0000;
    let m: i32 = 0x80_0000 + k % 0x80_0000;
    (m as u64, e - 150)
}

/// The whole number nearest to the magnitude of a key, at most `2^63`.
fn nearest_magnitude(k: i32) -> (r: u64)
    requires
        0 <= k <= INFINITY_KEY,
    ensures
        r == at_most(nearest_of(units(k as int)), 0x8000_0000_0000_0000),
{
    proof {
        lemma2_to64();
        lemma2_to64_rest();
    }
    if k < 0x80_0000 {
        proof {
            lemma_pow2_adds(23, 126);
            lemma_pow2_pos(126);
            lemma_pow2_unfold(150);
            let p = pow2(149) as int;
            assert(p >= 0x80_0000) by (nonlinear_arith)
                requires
                    p == 0x80_0000 * pow2(126),
                    pow2(126) >= 1,
            ;
            assert(0 <= 2 * k + p < 2 * p) by {
                assert(pow2(149) == pow2(24) * pow2(125)) by {
                    lemma_pow2_adds(24, 125);
                }
                lemma_pow2_pos(125);
                assert(p >= 0x100_0000) by (nonlinear_arith)
                    requires
                        p == 0x100_0000 * pow2(125),
                        pow2(125) >= 1,
                ;
            }
            lemma_fundamental_div_mod_converse(2 * k + p, 2 * p, 0, 2 * k + p);
        }
        return 0;
    }
    let (m, t) = parts(k);
    if t >= 0 {
        proof {
            whole_magnitude(m as int, t as int);
        }
        if t >= 40 {
            proof {
                if t > 40 {
                    lemma_pow2_strictly_increases(40, t as nat);
                }
                assert(m * pow2(t as nat) >= 0x80_0000 * 0x100_0000_0000) by (nonlinear_arith)
                    requires
                        m >= 0x80_0000,
                        pow2(t as nat) >= 0x100_0000_0000,
                ;
            }
            return 0x8000_0000_0000_0000;
        }
        let p: u64 = two_to(t as u32);
        proof {
            if t < 39 {
                lemma_pow2_strictly_increases(t as nat, 39);
            }
            assert(m * p <= 0xff_ffff * 0x80_0000_0000) by (nonlinear_arith)
                requires
                    m <= 0xff_ffff,
                    p <= 0x80_0000_0000,
            ;
        }
        return m * p;
    }
    let s: u32 = (-t) as u32;
    proof {
        assert(149 + t == 149 - s);
        fraction_parts(m as int, s as int);
    }
    if s >= 25 {
        proof {
            lemma_pow2_unfold(s as nat);
            if s > 25 {
                lemma_pow2_strictly_increases(24, (s - 1) as nat);
            }
            lemma_fundamental_div_mod_converse(
                m + pow2((s - 1) as nat),
                pow2(s as nat) as int,
                0,
                m + pow2((s - 1) as nat),
            );
        }
        return 0;
    }
    let half: u64 = two_to(s - 1);
    let whole: u64 = two_to(s);
    proof {
        lemma_pow2_pos(s as nat);
        if s < 25 {
            lemma_pow2_strictly_increases(s as nat, 25);
            lemma_pow2_strictly_increases((s - 1) as nat, 25);
        }
    }
    let r: u64 = (m + half) / whole;
    proof {
        assert(r <= m + half) by {
            lemma_fundamental_div_mod(m + half, whole as int);
            assert((m + half) / (whole as int) <= m + half) by (nonlinear_arith)
                requires
                    whole >= 1,
                    m + half >= 0,
            ;
        }
    }
    r
}

/// The whole number nearest to a measurement.
pub fn round_key(k: i32) -> (r: i64)
    ensures
        r == nearest_whole(k),
{
    if k > INFINITY_KEY || k < -INFINITY_KEY {
        return 0;
    }
    if k >= 0 {
        let m: u64 = nearest_magnitude(k);
        if m > i64::MAX as u64 {
            i64::MAX
        } else {
            m as i64
        }
    } else {
        let m: u64 = nearest_magnitude(-k);
        if m > i64::MAX as u64 {
            i64::MIN
        } else {
            -(m as i64)
        }
    }
}

/// The whole part of a measurement.
pub fn truncate_key(k: i32) -> (r: u32)
    ensures
        r == whole_part(k),
{
    if k > INFINITY_KEY || k < 0 {
        return 0;
    }
    proof {
        lemma2_to64();
        lemma2_to64_rest();
    }
    if k < 0x80_0000 {
        proof {
            lemma_pow2_adds(23, 126);
            lemma_pow2_pos(126);
            let p = pow2(149) as int;
            assert(p >= 0x80_0000) by (nonlinear_arith)
                requires
                    p == 0x80_0000 * pow2(126),
                    pow2(126) >= 1,
            ;
            lemma_fundamental_div_mod_converse(k as int, p, 0, k as int);
        }
        return 0;
    }
    let (m, t) = parts(k);
    if t >= 0 {
        proof {
            whole_magnitude(m as int, t as int);
        }
        if t >= 9 {
            proof {
                if t > 9 {
                    lemma_pow2_strictly_increases(9, t as nat);
                }
                assert(m * pow2(t as nat) >= 0x80_0000 * 0x200) by (nonlinear_arith)
                    requires
                        m >= 0x80_0000,
                        pow2(t as nat) >= 0x200,
                ;
            }
            return u32::MAX;
        }
        let p: u64 = two_to(t as u32);
        proof {
            if t < 8 {
                lemma_pow2_strictly_increases(t as nat, 8);
            }
            assert(m * p <= 0xff_ffff * 0x100) by (nonlinear_arith)
                requires
                    m <= 0xff_ffff,
                    p <= 0x100,
            ;
        }
        return (m * p) as u32;
    }
    let s: u32 = (-t) as u32;
    proof {
        assert(149 + t == 149 - s);
        fraction_parts(m as int, s as int);
    }
    if s >= 24 {
        proof {
            if s > 24 {
                lemma_pow2_strictly_increases(24, s as nat);
            }
            lemma_fundamental_div_mod_converse(m as int, pow2(s as nat) as int, 0, m as int);
        }
        return 0;
    }
    let whole: u64 = two_to(s);
    proof {
        lemma_pow2_pos(s as nat);
        assert(m / whole <= m) by {
            lemma_fundamental_div_mod(m as int, whole as int);
            assert(m as int / (whole as int) <= m) by (nonlinear_arith)
                requires
                    whole >= 1,
                    m >= 0,
            ;
        }
    }
    (m / whole) as u32
}

// ---------------------------------------------------------------------
// Lines of figures
// ---------------------------------------------------------------------

/// One shown figure and its unit.
#[derive(Debug, PartialEq, Eq)]
pub struct Stat {
    /// The figure.
    pub number: String,
    /// The unit; empty where it is part of the figure.
    pub unit: &'static str,
}

/// The views of several figures.
pub open spec fn stat_views(v: Seq<Stat>) -> Seq<(Seq<char>, Seq<char>)> {
    v.map_values(|s: Stat| (s.number@, s.unit@))
}

/// A figure that may be absent.
pub open spec fn stat(n: Option<Seq<char>>, unit: Seq<char>) -> Seq<(Seq<char>, Seq<char>)> {
    match n {
        Some(s) => seq![(s, unit)],
        None => Seq::empty(),
    }
}

/// A measurement in whole figures.
pub open spec fn rounded_text(k: Option<i32>) -> Option<Seq<char>> {
    match k {
        Some(x) => Some(signed_decimal(nearest_whole(x))),
        None => None,
    }
}

/// The figures that a row shows: flux, power, colour temperature, colour
/// rendering and beam angle, as far as they are known.
pub open spec fn stats_shown(p: PhotometrySlim) -> Seq<(Seq<char>, Seq<char>)> {
    stat(rounded_text(p.flux_lm), "lm"@) + stat(rounded_text(p.power_w), "W"@) + stat(
        match p.cct_k {
            Some(n) => Some(decimal(n as nat)),
            None => None,
        },
        "K"@,
    ) + stat(
        match p.cri_ra {
            Some(n) => Some("Ra "@ + decimal(n as nat)),
            None => None,
        },
        ""@,
    ) + stat(
        match p.beam_deg {
            Some(k) => Some(signed_decimal(nearest_whole(k)) + "\u{b0}"@),
            None => None,
        },
        ""@,
    )
}

/// The signed numeral of a number.
pub fn signed_text(n: i64) -> (r: String)
    ensures
        r@ == signed_decimal(n as int),
{
    if n < 0 {
        let m: u64 = (-(n + 1)) as u64 + 1;
        let mut s: String = String::new();
        s.push('-');
        push_text(&mut s, to_decimal(m).as_str());
        proof {
            assert(s@ =~= seq!['-'] + decimal(m as nat));
        }
        s
    } else {
        to_decimal(n as u64)
    }
}

/// Adds a figure.
fn add_stat(out: &mut Vec<Stat>, number: String, unit: &'static str)
    ensures
        stat_views(final(out)@) == stat_views(old(out)@) + seq![(number@, unit@)],
{
    let ghost before = stat_views(out@);
    let ghost n = number@;
    out.push(Stat { number, unit });
    proof {
        assert(stat_views(out@) =~= before + seq![(n, unit@)]);
    }
}

/// Adds a measurement in whole figures.
fn add_rounded(out: &mut Vec<Stat>, k: Option<i32>, unit: &'static str)
    ensures
        stat_views(final(out)@) == stat_views(old(out)@) + stat(rounded_text(k), unit@),
{
    match k {
        Some(x) => add_stat(out, signed_text(round_key(x)), unit),
        None => {
            proof {
                assert(stat_views(out@) + Seq::<(Seq<char>, Seq<char>)>::empty() =~= stat_views(
                    out@,
                ));
            }
        },
    }
}

/// The figures that a row shows.
pub fn render_phot_stats_slim(p: &PhotometrySlim) -> (out: Vec<Stat>)
    ensures
        stat_views(out@) == stats_shown(*p),
{
    let mut out: Vec<Stat> = Vec::new();
    proof {
        assert(stat_views(out@) =~= Seq::empty());
    }
    add_rounded(&mut out, p.flux_lm, "lm");
    add_rounded(&mut out, p.power_w, "W");
    match p.cct_k {
        Some(n) => add_stat(&mut out, to_decimal(n as u64), "K"),
        None => {},
    }
    match p.cri_ra {
        Some(n) => {
            let mut s: String = owned("Ra ");
            push_text(&mut s, to_decimal(n as u64).as_str());
            add_stat(&mut out, s, "");
        },
        None => {},
    }
    match p.beam_deg {
        Some(k) => {
            let mut s: String = signed_text(round_key(k));
            push_text(&mut s, "\u{b0}");
            add_stat(&mut out, s, "");
        },
        None => {},
    }
    proof {
        assert(stat_views(out@) =~= stats_shown(*p));
    }
    out
}

/// The figures of a variant that a row shows.
pub open spec fn slim_stats(p: PhotometryStats) -> PhotometrySlim {
    PhotometrySlim {
        flux_lm: p.flux_lm,
        power_w: p.power_w,
        efficacy_lm_w: p.efficacy_lm_w,
        cct_k: p.cct_k,
        cri_ra: p.cri_ra,
        beam_deg: p.beam_deg,
    }
}

/// The figures of a variant that a row shows.
pub fn render_phot_stats(p: &PhotometryStats) -> (out: Vec<Stat>)
    ensures
        stat_views(out@) == stats_shown(slim_stats(*p)),
{
    let slim: PhotometrySlim = PhotometrySlim {
        flux_lm: p.flux_lm,
        power_w: p.power_w,
        efficacy_lm_w: p.efficacy_lm_w,
        cct_k: p.cct_k,
        cri_ra: p.cri_ra,
        beam_deg: p.beam_deg,
    };
    render_phot_stats_slim(&slim)
}

/// A whole part with a unit.
pub open spec fn inline_part(k: Option<i32>, unit: Seq<char>) -> Seq<Seq<char>> {
    match k {
        Some(x) => seq![decimal(whole_part(x) as nat) + unit],
        None => Seq::empty(),
    }
}

/// The parts of the line of figures in a table of variants.
pub open spec fn inline_parts(p: PhotometryStats) -> Seq<Seq<char>> {
    inline_part(p.flux_lm, " lm"@) + inline_part(p.power_w, " W"@) + (match p.cct_k {
        Some(n) => seq![decimal(n as nat) + " K"@],
        None => Seq::empty(),
    }) + inline_part(p.beam_deg, "\u{b0}"@)
}

/// Texts with dots between them.
pub open spec fn dotted(s: Seq<Seq<char>>) -> Seq<char>
    decreases s.len(),
{
    if s.len() == 0 {
        Seq::empty()
    } else if s.len() == 1 {
        s[0]
    } else {
        dotted(s.drop_last()) + " \u{b7} "@ + s.last()
    }
}

/// Adds a part.
fn add_part(out: &mut Vec<String>, s: String)
    ensures
        texts(final(out)@) == texts(old(out)@) + seq![s@],
{
    let ghost before = texts(out@);
    let ghost t = s@;
    out.push(s);
    proof {
        assert(texts(out@) =~= before + seq![t]);
    }
}

/// Adds a whole part with a unit.
fn add_inline(out: &mut Vec<String>, k: Option<i32>, unit: &str)
    ensures
        texts(final(out)@) == texts(old(out)@) + inline_part(k, unit@),
{
    match k {
        Some(x) => {
            let mut s: String = to_decimal(truncate_key(x) as u64);
            push_text(&mut s, unit);
            add_part(out, s);
        },
        None => {
            proof {
                assert(texts(out@) + Seq::<Seq<char>>::empty() =~= texts(out@));
            }
        },
    }
}

/// Texts with dots between them.
fn join_dots(list: &Vec<String>) -> (r: String)
    ensures
        r@ == dotted(texts(list@)),
{
    let ghost all = texts(list@);
    let mut r: String = String::new();
    let mut i: usize = 0;
    proof {
        assert(all.take(0) =~= Seq::empty());
        assert(r@ =~= Seq::empty());
    }
    while i < list.len()
        invariant
            i <= list@.len(),
            all == texts(list@),
            r@ == dotted(all.take(i as int)),
        decreases list@.len() - i,
    {
        proof {
            assert(all[i as int] == list@[i as int]@);
            assert(all.take(i + 1).drop_last() =~= all.take(i as int));
            assert(all.take(i + 1).last() == all[i as int]);
        }
        if i > 0 {
            push_text(&mut r, " \u{b7} ");
        }
        push_text(&mut r, list[i].as_str());
        proof {
            if i == 0 {
                assert(r@ =~= all[0]);
            }
        }
        i += 1;
    }
    proof {
        assert(all.take(all.len() as int) =~= all);
    }
    r
}

/// The line of figures in a table of variants.
pub fn variant_stats_inline(p: &PhotometryStats) -> (r: String)
    ensures
        r@ == dotted(inline_parts(*p)),
{
    let mut out: Vec<String> = Vec::new();
    proof {
        assert(texts(out@) =~= Seq::empty());
    }
    add_inline(&mut out, p.flux_lm, " lm");
    add_inline(&mut out, p.power_w, " W");
    match p.cct_k {
        Some(n) => {
            let mut s: String = to_decimal(n as u64);
            push_text(&mut s, " K");
            add_part(&mut out, s);
        },
        None => {},
    }
    add_inline(&mut out, p.beam_deg, "\u{b0}");
    proof {
        assert(texts(out@) =~= inline_parts(*p));
    }
    join_dots(&out)
}

/// A whole number is shown as it is.
pub proof fn whole_numbers_are_shown_as_they_are(k: i32, n: nat)
    requires
        crate::quotient::is_whole(k, n),
        n <= u32::MAX,
    ensures
        nearest_whole(k) == n,
        whole_part(k) == n,
{
    lemma_pow2_pos(149);
    lemma2_to64();
    lemma_pow2_adds(149, 1);
    let p = pow2(149) as int;
    let u = units(k as int);
    assert(pow2(150) == 2 * p);
    assert(u == n * p);
    assert(2 * u + p == (2 * p) * n + p) by (nonlinear_arith)
        requires
            u == n * p,
    ;
    lemma_fundamental_div_mod_converse(2 * u + p, 2 * p, n as int, p);
    lemma_fundamental_div_mod_converse(u, p, n as int, 0);
}

/// What is shown of a positive measurement is off by no more than a half,
/// and its whole part is not above it by anything and below it by less
/// than one, in units of which `pow2(149)` make one.
pub proof fn shown_numbers_are_near(k: i32)
    requires
        0 <= k <= INFINITY_KEY,
        nearest_of(units(k as int)) <= i64::MAX,
        floor_of(units(k as int)) <= u32::MAX,
    ensures
        2 * nearest_whole(k) * pow2(149) - pow2(149) <= 2 * units(k as int) < 2 * nearest_whole(k)
            * pow2(149) + pow2(149),
        whole_part(k) * pow2(149) <= units(k as int) < whole_part(k) * pow2(149) + pow2(149),
{
    lemma_pow2_pos(149);
    lemma2_to64();
    lemma_pow2_adds(149, 1);
    let p = pow2(149) as int;
    let u = units(k as int);
    let q = nearest_of(u);
    let f = floor_of(u);
    assert(pow2(150) == 2 * p);
    lemma_fundamental_div_mod(2 * u + p, 2 * p);
    lemma_fundamental_div_mod(u, p);
    assert(2 * u + p == (2 * p) * q + (2 * u + p) % (2 * p));
    assert((2 * p) * q == 2 * q * p) by (nonlinear_arith);
    assert(u == p * f + u % p);
    assert(p * f == f * p) by (nonlinear_arith);
    assert(0 <= (2 * u + p) % (2 * p) < 2 * p) by {
        vstd::arithmetic::div_mod::lemma_mod_bound(2 * u + p, 2 * p);
    }
    assert(0 <= u % p < p) by {
        vstd::arithmetic::div_mod::lemma_mod_bound(u, p);
    }
}

/// A negative measurement is shown as the positive one with a sign; its
/// whole part counts as nothing, and so does what is no number.
pub proof fn negative_numbers_are_shown_with_a_sign(k: i32)
    requires
        0 < k <= INFINITY_KEY,
        nearest_of(units(k as int)) <= i64::MAX,
    ensures
        nearest_whole((-k) as i32) == -nearest_whole(k),
        whole_part((-k) as i32) == 0,
        nearest_whole(0x7fc0_0000) == 0,
        whole_part(0x7fc0_0000) == 0,
{
}

/// A row shows every figure that is known, each with its own unit, in
/// the order of flux, power, colour temperature, colour rendering and
/// beam, and nothing else.
pub proof fn rows_show_known_figures(p: PhotometrySlim)
    ensures
        ({
            let none = PhotometrySlim {
                flux_lm: None,
                power_w: None,
                efficacy_lm_w: None,
                cct_k: None,
                cri_ra: None,
                beam_deg: None,
            };
            let flux = stats_shown(PhotometrySlim { flux_lm: p.flux_lm, ..none });
            let power = stats_shown(PhotometrySlim { power_w: p.power_w, ..none });
            let cct = stats_shown(PhotometrySlim { cct_k: p.cct_k, ..none });
            let cri = stats_shown(PhotometrySlim { cri_ra: p.cri_ra, ..none });
            let beam = stats_shown(PhotometrySlim { beam_deg: p.beam_deg, ..none });
            &&& stats_shown(none).len() == 0
            &&& stats_shown(p) == flux + power + cct + cri + beam
            &&& p.flux_lm matches Some(k) ==> flux == seq![
                (signed_decimal(nearest_whole(k)), "lm"@),
            ]
            &&& p.power_w matches Some(k) ==> power == seq![
                (signed_decimal(nearest_whole(k)), "W"@),
            ]
            &&& p.cct_k matches Some(n) ==> cct == seq![(decimal(n as nat), "K"@)]
            &&& p.cri_ra matches Some(n) ==> cri == seq![("Ra "@ + decimal(n as nat), ""@)]
            &&& p.beam_deg matches Some(k) ==> beam == seq![
                (signed_decimal(nearest_whole(k)) + "\u{b0}"@, ""@),
            ]
        }),
{
    let none = PhotometrySlim {
        flux_lm: None,
        power_w: None,
        efficacy_lm_w: None,
        cct_k: None,
        cri_ra: None,
        beam_deg: None,
    };
    let flux = stats_shown(PhotometrySlim { flux_lm: p.flux_lm, ..none });
    let power = stats_shown(PhotometrySlim { power_w: p.power_w, ..none });
    let cct = stats_shown(PhotometrySlim { cct_k: p.cct_k, ..none });
    let cri = stats_shown(PhotometrySlim { cri_ra: p.cri_ra, ..none });
    let beam = stats_shown(PhotometrySlim { beam_deg: p.beam_deg, ..none });
    assert(stats_shown(p) =~= flux + power + cct + cri + beam);
    if let Some(k) = p.flux_lm {
        assert(flux =~= seq![(signed_decimal(nearest_whole(k)), "lm"@)]);
    }
    if let Some(k) = p.power_w {
        assert(power =~= seq![(signed_decimal(nearest_whole(k)), "W"@)]);
    }
    if let Some(n) = p.cct_k {
        assert(cct =~= seq![(decimal(n as nat), "K"@)]);
    }
    if let Some(n) = p.cri_ra {
        assert(cri =~= seq![("Ra "@ + decimal(n as nat), ""@)]);
    }
    if let Some(k) = p.beam_deg {
        assert(beam =~= seq![(signed_decimal(nearest_whole(k)) + "\u{b0}"@, ""@)]);
    }
}

/// The figures of a row are those of the variant, each under its own
/// heading.
pub proof fn slim_figures_keep_their_places(p: PhotometryStats)
    ensures
        slim_stats(p).flux_lm == p.flux_lm,
        slim_stats(p).power_w == p.power_w,
        slim_stats(p).efficacy_lm_w == p.efficacy_lm_w,
        slim_stats(p).cct_k == p.cct_k,
        slim_stats(p).cri_ra == p.cri_ra,
        slim_stats(p).beam_deg == p.beam_deg,
{
}

/// A line of figures names flux, power, colour temperature and beam, as
/// far as they are known, in whole numbers.
pub proof fn lines_name_known_figures(p: PhotometryStats)
    ensures
        ({
            let parts = inline_parts(p);
            let n = (if p.flux_lm is Some { 1int } else { 0 }) + (if p.power_w is Some {
                1int
            } else {
                0
            }) + (if p.cct_k is Some { 1int } else { 0 }) + (if p.beam_deg is Some {
                1int
            } else {
                0
            });
            &&& parts.len() == n
            &&& p.flux_lm matches Some(k) ==> parts[0] == decimal(whole_part(k) as nat) + " lm"@
            &&& p.beam_deg matches Some(k) ==> parts[n - 1] == decimal(whole_part(k) as nat)
                + "\u{b0}"@
            &&& p.power_w matches Some(k) ==> parts.contains(
                decimal(whole_part(k) as nat) + " W"@,
            )
            &&& p.cct_k matches Some(k) ==> parts.contains(decimal(k as nat) + " K"@)
        }),
{
    let parts = inline_parts(p);
    let a = if p.flux_lm is Some { 1int } else { 0 };
    let b = if p.power_w is Some { 1int } else { 0 };
    if let Some(k) = p.power_w {
        assert(parts[a] == decimal(whole_part(k) as nat) + " W"@);
    }
    if let Some(k) = p.cct_k {
        assert(parts[a + b] == decimal(k as nat) + " K"@);
    }
}

/// Texts are set apart by dots.
pub proof fn dots_set_texts_apart(a: Seq<char>, b: Seq<char>, rest: Seq<Seq<char>>)
    ensures
        dotted(Seq::empty()).len() == 0,
        dotted(seq![a]) == a,
        rest.len() > 0 ==> dotted(rest.push(b)) == dotted(rest) + " \u{b7} "@ + b,
{
    if rest.len() > 0 {
        assert(rest.push(b).drop_last() =~= rest);
    }
}

} // verus!
