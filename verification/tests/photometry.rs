use gldf_search::doc::{PhotometricSymmetryHint, PhotometryStats};
use gldf_search::keys::key_of_bits;
use gldf_search::photometry::{
    canon, classify_light_distribution, efficacy, parse_color_strings, parse_din_code,
    parse_explicit_kelvin, parse_explicit_ra, parse_ldt_to_stats, read_ldt, sanitize_photometry,
    sanitize_recessed_depth, stats_of_reading, LampReading, LdtContent, LdtReading, LdtSummary,
    LdtSymmetry,
};
use gldf_search::polar::{polar_theme, render_polar_from_ldt};
use gldf_search::tables::{value_of, Axis};
use gldf_search::wide::wide_key_of_bits;

fn key(x: f32) -> i32 {
    key_of_bits(x.to_bits())
}

fn wide(x: f64) -> i64 {
    wide_key_of_bits(x.to_bits())
}

#[test]
fn din_code_extracts_cct_and_cri() {
    assert_eq!(parse_din_code("830"), Some((3000, 80)));
    assert_eq!(parse_din_code("/940"), Some((4000, 90)));
    assert_eq!(parse_din_code("930K"), Some((3000, 90)));
    assert_eq!(parse_din_code("Ra 80, 4000K"), None);
}

#[test]
fn din_code_rejects_low_first_digit() {
    assert_eq!(parse_din_code("720"), None);
}

#[test]
fn din_code_rejects_out_of_range_cct() {
    assert_eq!(parse_din_code("899"), Some((9900, 80)));
    assert_eq!(parse_din_code("812"), None);
}

#[test]
fn explicit_kelvin_finds_4digit() {
    assert_eq!(parse_explicit_kelvin("4000K"), Some(4000));
    assert_eq!(parse_explicit_kelvin("3000"), Some(3000));
    assert_eq!(parse_explicit_kelvin("color 6500 K"), Some(6500));
    assert_eq!(parse_explicit_kelvin("xx 99 yy"), None);
}

#[test]
fn explicit_ra_finds_after_ra_prefix() {
    assert_eq!(parse_explicit_ra("Ra80"), Some(80));
    assert_eq!(parse_explicit_ra("ra 90"), None);
    assert_eq!(parse_explicit_ra("RA95"), Some(95));
    assert_eq!(parse_explicit_ra("foo"), None);
}

#[test]
fn explicit_ra_takes_a_bare_value() {
    assert_eq!(parse_explicit_ra("80"), Some(80));
    assert_eq!(parse_explicit_ra("49"), None);
    assert_eq!(parse_explicit_ra("800"), None);
}

#[test]
fn color_strings_prefer_din_over_kelvin() {
    assert_eq!(parse_color_strings("830", "Ra80"), (Some(3000), Some(80)));
    assert_eq!(parse_color_strings("4000K", "Ra80"), (Some(4000), Some(80)));
    assert_eq!(parse_color_strings("LED", ""), (None, None));
}

#[test]
fn malformed_ldt_returns_none() {
    assert!(parse_ldt_to_stats("not an LDT file").is_none());
    assert!(parse_ldt_to_stats("").is_none());
}

#[test]
fn classifier_labels_are_canonical() {
    for s in [
        "Laterally symmetrical narrow",
        "Laterally symmetrical medium",
        "Laterally symmetrical wide",
        "Symmetrical in each quadrant",
        "Symmetric about 0-180 plane",
        "Symmetric about 90-270 plane",
        "Asymmetrical",
        "Asymmetrical flood",
        "Asymmetrical wide flood",
        "Diffuse half spherical",
        "Diffuse full spherical",
        "Direct",
        "Indirect",
        "Direct indirect",
        "Other",
    ] {
        assert!(
            canon(s).is_some(),
            "non-canonical light-distribution literal: {s:?}"
        );
    }
}

fn stats_with(
    flux: Option<f32>,
    power: Option<f32>,
    eff: Option<f32>,
    beam: Option<f32>,
) -> PhotometryStats {
    PhotometryStats {
        flux_lm: flux.map(key),
        power_w: power.map(key),
        efficacy_lm_w: eff.map(key),
        cct_k: None,
        cri_ra: None,
        r9: None,
        beam_deg: beam.map(key),
        field_deg: None,
        ulor: None,
        dlor: None,
        symmetry: PhotometricSymmetryHint::Unknown,
        light_distribution: None,
    }
}

#[test]
fn sanitize_drops_impossible_efficacy() {
    let mut p = stats_with(Some(100.0), Some(0.01), Some(10_000.0), Some(30.0));
    sanitize_photometry(&mut p);
    assert_eq!(p.flux_lm, Some(key(100.0)));
    assert_eq!(p.power_w, Some(key(0.01)));
    assert_eq!(p.efficacy_lm_w, None);
}

#[test]
fn sanitize_drops_huge_beam_angle() {
    let mut p = stats_with(Some(2000.0), Some(20.0), Some(100.0), Some(1045.0));
    sanitize_photometry(&mut p);
    assert_eq!(p.beam_deg, None);
}

#[test]
fn sanitize_keeps_normal_values() {
    let mut p = stats_with(Some(3000.0), Some(30.0), Some(100.0), Some(120.0));
    sanitize_photometry(&mut p);
    assert_eq!(p.flux_lm, Some(key(3000.0)));
    assert_eq!(p.power_w, Some(key(30.0)));
    assert_eq!(p.efficacy_lm_w, Some(key(100.0)));
    assert_eq!(p.beam_deg, Some(key(120.0)));
}

#[test]
fn sanitize_drops_nan_and_negative() {
    let mut p = stats_with(Some(f32::NAN), Some(-5.0), None, Some(f32::INFINITY));
    sanitize_photometry(&mut p);
    assert_eq!(p.flux_lm, None);
    assert_eq!(p.power_w, None);
    assert_eq!(p.beam_deg, None);
}

#[test]
fn sanitize_caps_huge_recessed_depth() {
    assert_eq!(sanitize_recessed_depth(Some(800_000)), None);
    assert_eq!(sanitize_recessed_depth(Some(50)), Some(50));
    assert_eq!(sanitize_recessed_depth(None), None);
}

#[test]
fn sanitize_twice_is_sanitize_once() {
    let mut p = stats_with(Some(100.0), Some(0.01), Some(10_000.0), Some(361.0));
    sanitize_photometry(&mut p);
    let once = p;
    sanitize_photometry(&mut p);
    assert_eq!(p, once);
}

#[test]
fn sanitize_keeps_the_limits_themselves() {
    let mut p = stats_with(Some(1_000_000.0), Some(10_000.0), None, Some(360.0));
    sanitize_photometry(&mut p);
    assert_eq!(p.flux_lm, Some(key(1_000_000.0)));
    assert_eq!(p.power_w, Some(key(10_000.0)));
    assert_eq!(p.efficacy_lm_w, Some(key(100.0)));
    assert_eq!(p.beam_deg, Some(key(360.0)));
    assert_eq!(sanitize_recessed_depth(Some(1_000)), Some(1_000));
    assert_eq!(sanitize_recessed_depth(Some(1_001)), None);
}

#[test]
fn efficacy_is_flux_by_power() {
    assert_eq!(efficacy(Some(key(1500.0)), Some(key(16.0))), Some(key(93.75)));
    assert_eq!(efficacy(Some(key(1000.0)), Some(key(3.0))), Some(key(1000.0f32 / 3.0f32)));
    assert_eq!(efficacy(Some(key(1500.0)), Some(key(0.0))), None);
    assert_eq!(efficacy(Some(key(1500.0)), Some(key(-1.0))), None);
    assert_eq!(efficacy(None, Some(key(16.0))), None);
    assert_eq!(efficacy(Some(key(0.0)), Some(key(16.0))), None);
    assert_eq!(efficacy(Some(key(-1.0)), Some(key(16.0))), None);
    assert_eq!(efficacy(Some(key(f32::NAN)), Some(key(16.0))), None);
}

/// A light distribution file with one plane.
fn ldt_text(symmetry: &str, downward: &str, output: &str, intensities: &[&str]) -> String {
    let angles = intensities.len();
    let mut lines: Vec<String> = vec!["Company".to_string(), "1".to_string(), symmetry.to_string()];
    for s in ["1", "0"] {
        lines.push(s.to_string());
    }
    lines.push(format!("{angles}"));
    for s in ["5", "report", "name", "number", "file", "today"] {
        lines.push(s.to_string());
    }
    for s in ["100", "50", "30", "80", "40", "0", "0", "0", "0"] {
        lines.push(s.to_string());
    }
    lines.push(downward.to_string());
    lines.push(output.to_string());
    for s in ["1", "0", "1"] {
        lines.push(s.to_string());
    }
    for s in ["1", "LED", "1500,5", "840", "Ra80", "16"] {
        lines.push(s.to_string());
    }
    for _ in 0..10 {
        lines.push("0.5".to_string());
    }
    lines.push("0".to_string());
    for i in 0..angles {
        lines.push(format!("{}", i * 5));
    }
    for s in intensities {
        lines.push(s.to_string());
    }
    lines.join("\n")
}

#[test]
fn ldt_figures_come_from_the_text() {
    let text = ldt_text("1", "90", "95", &["100", "80", "20", "0"]);
    let p = parse_ldt_to_stats(&text).unwrap();
    assert_eq!(p.flux_lm, Some(key(1500.5)));
    assert_eq!(p.power_w, Some(key(16.0)));
    assert_eq!(p.efficacy_lm_w, Some(key(1500.5 / 16.0)));
    assert_eq!(p.cct_k, Some(4000));
    assert_eq!(p.cri_ra, Some(80));
    assert_eq!(p.r9, None);
    // Half of the peak lies midway between 5 and 10 degrees.
    assert_eq!(p.beam_deg, Some(key(15.0)));
    let tenth = (10.0f64 + (20.0 - 10.0) / (20.0 - 0.0) * 5.0) * 2.0;
    assert_eq!(p.field_deg, Some(key(tenth as f32)));
    assert_eq!(p.dlor, Some(key((90.0f64 / 100.0) as f32)));
    assert_eq!(p.ulor, Some(key((95.0f64 / 100.0 - 90.0f64 / 100.0).max(0.0) as f32)));
    assert_eq!(p.symmetry, PhotometricSymmetryHint::Rotational);
    assert_eq!(p.light_distribution, canon("Laterally symmetrical narrow"));
}

#[test]
fn ldt_reading_holds_what_stands_in_the_file() {
    let text = ldt_text("1", "90", "95", &["100", "80", "20", "0"]);
    let l = read_ldt(&text).unwrap();
    assert_eq!(l.content.lamps.len(), 1);
    assert_eq!(l.content.lamps[0].flux, wide(1500.5));
    assert_eq!(l.content.lamps[0].color_appearance, "840");
    assert_eq!(l.content.planes, 1);
    assert_eq!(l.content.angles, 4);
    assert_eq!(l.content.symmetry, LdtSymmetry::VerticalAxis);
    assert_eq!(
        l.summary,
        LdtSummary { lor: wide(95.0), dlor: wide(90.0), ulor: wide(10.0), beam: wide(15.0) }
    );
    assert_eq!(stats_of_reading(&l), parse_ldt_to_stats(&text).unwrap());
}

#[test]
fn ldt_without_light_has_no_label() {
    let text = ldt_text("1", "90", "4.9", &["100", "80", "20", "0"]);
    assert_eq!(parse_ldt_to_stats(&text).unwrap().light_distribution, None);
    let dark = ldt_text("1", "90", "95", &[]);
    let p = parse_ldt_to_stats(&dark).unwrap();
    assert_eq!(p.light_distribution, None);
    assert_eq!(p.beam_deg, None);
    assert_eq!(p.field_deg, None);
}

#[test]
fn ldt_upward_share_is_never_negative() {
    let text = ldt_text("0", "100", "80", &["100", "80", "20", "0"]);
    let p = parse_ldt_to_stats(&text).unwrap();
    assert_eq!(p.dlor, Some(key(1.0)));
    assert_eq!(p.ulor, Some(key(0.0)));
    assert_eq!(p.symmetry, PhotometricSymmetryHint::Asymmetric);
}

fn reading(symmetry: LdtSymmetry, lor: f64, dlor: f64, beam: f64) -> LdtReading {
    LdtReading {
        content: LdtContent {
            lamps: vec![LampReading {
                flux: wide(100.0),
                power: wide(10.0),
                color_appearance: "LED".to_string(),
                color_rendering_group: String::new(),
            }],
            planes: 1,
            angles: 3,
            downward: wide(dlor),
            output: wide(lor),
            symmetry,
        },
        beam: wide(beam),
        field: wide(beam),
        summary: LdtSummary {
            lor: wide(lor),
            dlor: wide(dlor),
            ulor: wide(100.0 - dlor),
            beam: wide(beam),
        },
    }
}

fn label(symmetry: LdtSymmetry, lor: f64, dlor: f64, beam: f64) -> Option<&'static str> {
    let id = classify_light_distribution(&reading(symmetry, lor, dlor, beam))?;
    value_of(Axis::LightDistribution, id)
}

#[test]
fn classifier_tells_the_distributions_apart() {
    let round = LdtSymmetry::VerticalAxis;
    assert_eq!(label(round, 90.0, 20.0, 60.0), Some("Indirect"));
    assert_eq!(label(round, 90.0, 50.0, 60.0), Some("Direct indirect"));
    assert_eq!(label(round, 90.0, 60.0, 150.0), Some("Diffuse full spherical"));
    assert_eq!(label(round, 90.0, 61.0, 150.0), Some("Direct indirect"));
    assert_eq!(label(round, 90.0, f64::NAN, 60.0), Some("Laterally symmetrical medium"));
    assert_eq!(label(round, 90.0, 81.0, 120.0), Some("Diffuse half spherical"));
    assert_eq!(label(round, 90.0, 81.0, 30.0), Some("Laterally symmetrical narrow"));
    assert_eq!(label(round, 90.0, 81.0, 60.0), Some("Laterally symmetrical medium"));
    assert_eq!(label(round, 90.0, 81.0, 61.0), Some("Laterally symmetrical wide"));
    assert_eq!(label(round, 90.0, 81.0, 0.0), Some("Laterally symmetrical medium"));
    assert_eq!(
        label(LdtSymmetry::PlaneC0C180, 90.0, 90.0, 60.0),
        Some("Symmetric about 0-180 plane")
    );
    assert_eq!(
        label(LdtSymmetry::PlaneC90C270, 90.0, 90.0, 60.0),
        Some("Symmetric about 90-270 plane")
    );
    assert_eq!(
        label(LdtSymmetry::BothPlanes, 90.0, 90.0, 60.0),
        Some("Symmetrical in each quadrant")
    );
    assert_eq!(label(LdtSymmetry::Asymmetric, 90.0, 95.0, 30.0), Some("Direct"));
    assert_eq!(label(LdtSymmetry::Asymmetric, 90.0, 95.0, 60.0), Some("Direct"));
    assert_eq!(label(LdtSymmetry::Asymmetric, 90.0, 94.0, 30.0), Some("Asymmetrical"));
    assert_eq!(label(round, 4.0, 95.0, 30.0), None);
}

#[test]
fn every_lit_file_has_a_label() {
    for dlor in [0.0, 10.0, 25.0, 50.0, 79.0, 81.0, 100.0] {
        for beam in [0.0, 29.0, 45.0, 90.0, 130.0, 170.0] {
            assert!(label(LdtSymmetry::Asymmetric, 5.0, dlor, beam).is_some());
        }
    }
}

#[test]
fn symmetry_hints_follow_the_file() {
    for (symmetry, hint) in [
        (LdtSymmetry::Asymmetric, PhotometricSymmetryHint::Asymmetric),
        (LdtSymmetry::VerticalAxis, PhotometricSymmetryHint::Rotational),
        (LdtSymmetry::PlaneC0C180, PhotometricSymmetryHint::Axial),
        (LdtSymmetry::PlaneC90C270, PhotometricSymmetryHint::Axial),
        (LdtSymmetry::BothPlanes, PhotometricSymmetryHint::Rotational),
    ] {
        assert_eq!(stats_of_reading(&reading(symmetry, 90.0, 90.0, 40.0)).symmetry, hint);
    }
}

#[test]
fn polar_drawing_has_its_size_and_colours() {
    let text = ldt_text("0", "90", "95", &["100", "80", "20", "0"]);
    let svg = render_polar_from_ldt(&text, 240).unwrap();
    assert!(svg.starts_with("<svg viewBox=\"0 0 240 240\""), "{svg}");
    assert!(svg.contains(
        "<rect x=\"0\" y=\"0\" width=\"240\" height=\"240\" fill=\"transparent\"/>"
    ));
    assert!(svg.contains(
        " fill=\"rgba(31,111,208,0.18)\" stroke=\"#1f6fd0\" stroke-width=\"2\" rx=\"2\"/>"
    ));
    assert!(svg.contains(
        " Z\" fill=\"rgba(31,111,208,0.18)\" stroke=\"#1f6fd0\" stroke-width=\"2.5\"/>"
    ));
    assert!(svg.ends_with("</svg>"));
    assert!(render_polar_from_ldt("not an LDT file", 240).is_none());
    assert_eq!(polar_theme().curve_c90_c270, "#7a3911");
}

#[test]
fn second_curve_is_drawn_where_it_is_shown() {
    let text = ldt_text("3", "90", "95", &["100", "80", "20", "0"]);
    let svg = render_polar_from_ldt(&text, 240).unwrap();
    assert!(svg.contains(
        " fill=\"rgba(122,57,17,0.10)\" stroke=\"#7a3911\" stroke-width=\"2\" \
         stroke-dasharray=\"4,2\" rx=\"2\"/>"
    ));
    assert!(svg.contains(
        " Z\" fill=\"rgba(122,57,17,0.10)\" stroke=\"#7a3911\" stroke-width=\"2.5\" \
         stroke-dasharray=\"6,4\"/>"
    ));
    for symmetry in ["0", "1"] {
        let text = ldt_text(symmetry, "90", "95", &["100", "80", "20", "0"]);
        let svg = render_polar_from_ldt(&text, 240).unwrap();
        assert!(svg.contains("<path"));
        assert!(!svg.contains(" stroke-dasharray="));
    }
    let text = ldt_text("1", "90", "95", &[]);
    let svg = render_polar_from_ldt(&text, 240).unwrap();
    assert!(!svg.contains("<path"));
}

#[test]
fn circles_are_labelled_with_their_intensities() {
    for (peak, labels) in [
        ("100", ["20", "40", "60", "80", "100"]),
        ("101", ["30", "60", "90", "120", "150"]),
        ("1001", ["300", "600", "900", "1200", "1500"]),
        ("0", ["20", "40", "60", "80", "100"]),
    ] {
        let text = ldt_text("1", "90", "95", &[peak, "0", "0", "0"]);
        let svg = render_polar_from_ldt(&text, 240).unwrap();
        for n in labels {
            assert!(svg.contains(&format!("\">{n}</text>")), "{peak} {n}");
        }
    }
}
