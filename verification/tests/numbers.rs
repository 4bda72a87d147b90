use gldf_search::double::{at_least_zero, difference, hundredth, magnitude_of, narrow, WIDE_NAN};
use gldf_search::figures::{
    render_phot_stats, render_phot_stats_slim, round_key, signed_text, truncate_key,
    variant_stats_inline,
};
use gldf_search::api::PhotometrySlim;
use gldf_search::doc::{PhotometricSymmetryHint, PhotometryStats};
use gldf_search::keys::{at_most, bits_of_key, is_finite_key, key_of_bits};
use gldf_search::near::near;
use gldf_search::quotient::{key_of_count, quotient_key, NAN_KEY};
use gldf_search::wide::{
    is_wide_finite, wide_at_most, wide_below, wide_key_of_bits, WIDE_100, WIDE_150, WIDE_5,
    WIDE_90,
};

fn key(x: f32) -> i32 {
    key_of_bits(x.to_bits())
}

fn wide(x: f64) -> i64 {
    wide_key_of_bits(x.to_bits())
}

fn samples() -> Vec<f64> {
    let mut v = vec![
        0.0, 1.0, 2.0, 3.0, 0.1, 0.2, 0.3, 5e-324, 1e-310, 2.2250738585072014e-308, 1e-45, 1e-40,
        1.1754943508222875e-38, 1.17549429e-38, 3.4028234663852886e38, 3.40282356779733e38, 1e39, 1e300,
        1.7976931348623157e308, 90.0, 95.5, 100.0, 33.333333333, 16777217.0, 16777219.0,
        9007199254740993.0, 0.7, 99.99999999999999, 1e16, 1.5e-8,
    ];
    let mut x: u64 = 0x9e3779b97f4a7c15;
    for _ in 0..300 {
        x = x.wrapping_mul(6364136223846793005).wrapping_add(1442695040888963407);
        let f = f64::from_bits(x & 0x7fff_ffff_ffff_ffff);
        if f.is_finite() {
            v.push(f);
        }
        v.push((x >> 40) as f64 / 1024.0);
    }
    let negatives: Vec<f64> = v.iter().map(|a| -*a).collect();
    v.extend(negatives);
    v
}

#[test]
fn narrowing_is_that_of_the_machine() {
    for a in samples() {
        assert_eq!(narrow(wide(a)), key(a as f32), "{a:e}");
    }
    assert_eq!(narrow(wide(f64::INFINITY)), key(f32::INFINITY));
    assert_eq!(narrow(wide(f64::NEG_INFINITY)), key(f32::NEG_INFINITY));
    assert_eq!(narrow(wide(f64::NAN)), NAN_KEY);
}

#[test]
fn hundredths_are_those_of_the_machine() {
    for a in samples() {
        assert_eq!(hundredth(wide(a)), wide(a / 100.0), "{a:e}");
    }
    assert_eq!(hundredth(wide(f64::INFINITY)), wide(f64::INFINITY));
    assert_eq!(hundredth(wide(f64::NAN)), WIDE_NAN);
}

#[test]
fn differences_are_those_of_the_machine() {
    let v = samples();
    for (i, a) in v.iter().enumerate() {
        for b in [v[(i * 7 + 3) % v.len()], v[(i + 1) % v.len()], *a, -*a, 1.0, -0.1, a * 0.999] {
            assert_eq!(difference(wide(*a), wide(b)), wide(*a - b), "{a:e} - {b:e}");
        }
    }
    let inf = wide(f64::INFINITY);
    assert_eq!(difference(inf, inf), WIDE_NAN);
    assert_eq!(difference(inf, wide(1.0)), inf);
    assert_eq!(difference(wide(1.0), inf), wide(f64::NEG_INFINITY));
    assert_eq!(difference(WIDE_NAN, wide(1.0)), WIDE_NAN);
}

#[test]
fn quotients_are_those_of_the_machine() {
    let v: Vec<f32> = samples().iter().map(|a| *a as f32).collect();
    for (i, a) in v.iter().enumerate() {
        let b = v[(i * 5 + 2) % v.len()].abs();
        if b > 0.0 && !(a.is_infinite() && b.is_infinite()) {
            assert_eq!(quotient_key(key(*a), key(b)), key(a / b), "{a:e} / {b:e}");
        }
    }
    assert_eq!(quotient_key(key(1.0), key(f32::INFINITY)), key(0.0));
    assert_eq!(quotient_key(key(f32::NAN), key(2.0)), NAN_KEY);
}

#[test]
fn counts_have_exact_keys() {
    for n in [0u32, 1, 2, 3, 15, 1500, 16_777_215] {
        assert_eq!(key_of_count(n), key(n as f32));
    }
}

#[test]
fn keys_order_as_numbers_do() {
    let v: Vec<f32> = samples().iter().map(|a| *a as f32).collect();
    for (i, a) in v.iter().enumerate() {
        let b = v[(i * 11 + 5) % v.len()];
        assert_eq!(at_most(key(*a), key(b)), *a <= b);
    }
    assert!(!at_most(key(f32::NAN), key(1.0)));
    assert!(!at_most(key(1.0), key(f32::NAN)));
    assert!(!is_finite_key(key(f32::INFINITY)));
    assert!(is_finite_key(key(f32::MAX)));
    for a in [0.0f32, 1.5, -2.25, 1e-40, f32::INFINITY] {
        assert_eq!(f32::from_bits(bits_of_key(key(a))), a);
    }
}

#[test]
fn wide_keys_order_as_numbers_do() {
    let v = samples();
    for (i, a) in v.iter().enumerate() {
        let b = v[(i * 13 + 4) % v.len()];
        assert_eq!(wide_at_most(wide(*a), wide(b)), *a <= b);
        assert_eq!(wide_below(wide(*a), wide(b)), *a < b);
    }
    assert!(!is_wide_finite(wide(f64::NAN)));
    assert!(!wide_at_most(wide(f64::NAN), wide(0.0)));
    assert_eq!(WIDE_5, wide(5.0));
    assert_eq!(WIDE_90, wide(90.0));
    assert_eq!(WIDE_100, wide(100.0));
    assert_eq!(WIDE_150, wide(150.0));
    assert_eq!(magnitude_of(wide(-3.5)), wide(3.5));
    assert_eq!(at_least_zero(wide(-3.5)), 0);
    assert_eq!(at_least_zero(WIDE_NAN), 0);
    assert_eq!(at_least_zero(wide(3.5)), wide(3.5));
}

#[test]
fn rounding_is_that_of_the_machine() {
    for a in [0.0f32, 0.4, 0.5, 0.6, 1.5, 2.5, -0.5, -1.4, -1.5, 1234.5, 1e10, 8388607.5, 1e30, -1e30] {
        assert_eq!(round_key(key(a)), a.round() as i64, "{a}");
        assert_eq!(truncate_key(key(a)), a as u32, "{a}");
    }
    assert_eq!(round_key(key(f32::NAN)), 0);
    assert_eq!(truncate_key(key(f32::NAN)), 0);
    assert_eq!(truncate_key(key(f32::INFINITY)), u32::MAX);
    assert_eq!(signed_text(-12), "-12");
    assert_eq!(signed_text(i64::MIN), i64::MIN.to_string());
}

fn stats() -> PhotometryStats {
    PhotometryStats {
        flux_lm: Some(key(1499.6)),
        power_w: Some(key(15.5)),
        efficacy_lm_w: Some(key(96.7)),
        cct_k: Some(4000),
        cri_ra: Some(80),
        r9: None,
        beam_deg: Some(key(36.4)),
        field_deg: None,
        ulor: None,
        dlor: None,
        symmetry: PhotometricSymmetryHint::Unknown,
        light_distribution: None,
    }
}

#[test]
fn figures_are_shown_in_order() {
    let shown: Vec<(String, &str)> =
        render_phot_stats(&stats()).into_iter().map(|s| (s.number, s.unit)).collect();
    assert_eq!(
        shown,
        vec![
            ("1500".to_string(), "lm"),
            ("16".to_string(), "W"),
            ("4000".to_string(), "K"),
            ("Ra 80".to_string(), ""),
            ("36\u{b0}".to_string(), ""),
        ]
    );
    let slim = PhotometrySlim {
        flux_lm: None,
        power_w: Some(key(15.5)),
        efficacy_lm_w: None,
        cct_k: None,
        cri_ra: None,
        beam_deg: None,
    };
    assert_eq!(render_phot_stats_slim(&slim).len(), 1);
    assert_eq!(variant_stats_inline(&stats()), "1499 lm \u{b7} 15 W \u{b7} 4000 K \u{b7} 36\u{b0}");
}

#[test]
fn nearness_is_that_of_the_machine() {
    let mut v: Vec<f32> = samples().iter().map(|a| *a as f32).collect();
    let eps = f32::EPSILON;
    for x in [0.0, 1e-30, 1e-10, eps / 4.0, eps / 2.0, eps, eps * 1.5, eps * 2.0, 1e-4, 0.5, 1.0, 1.5, 2.0, 3.0] {
        v.push(x);
        v.push(-x);
    }
    let near_by = |a: f32| {
        let mut out = vec![a, -a, a + eps, a - eps, a + eps / 2.0, a - eps / 2.0, a * 0.9999, 0.0];
        for d in [-3i32, -2, -1, 1, 2, 3] {
            out.push(f32::from_bits((a.to_bits() as i64 + d as i64) as u32));
        }
        out
    };
    for a in v.iter() {
        for b in near_by(*a) {
            assert_eq!(near(key(*a), key(b)), (*a - b).abs() < eps, "{a:e} {b:e}");
        }
    }
    assert!(!near(key(f32::INFINITY), key(f32::INFINITY)));
    assert!(!near(key(f32::NAN), key(f32::NAN)));
}
