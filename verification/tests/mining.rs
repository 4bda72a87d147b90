use gldf_search::applications::{
    application_leaves_lower, application_mid, application_top, leaf_of, mid_of, simple_singular,
    top_of,
};
use gldf_search::mining::{
    match_name, mine_matches, mine_variant_name, scan_product_form, substr_word_match,
    MinedFromName,
};
use gldf_search::tables::{id_of, value_of, Axis};

fn ip_code_str(id: u8) -> Option<&'static str> {
    value_of(Axis::IpCode, id)
}

fn product_form_str(id: u8) -> Option<&'static str> {
    value_of(Axis::ProductForm, id)
}

fn application_str(id: u8) -> Option<&'static str> {
    value_of(Axis::Application, id)
}

#[test]
fn pil_dl_square_maxi() {
    let r = mine_variant_name(
        "DL SQUARE MAXI C/EW 2x42° 15W 930 SL-10 EM1/3h + White Optic IP54 | Battery",
    );
    assert_eq!(r.power_w, Some(15));
    assert_eq!(r.beam_deg, Some(42));
    assert_eq!(r.ip_code.and_then(ip_code_str), Some("IP54"));
    assert_eq!(r.cct_k, Some(3000));
    assert_eq!(r.cri_ra_min, Some(90));
    assert!(r.is_emergency);
    assert_eq!(r.product_form.and_then(product_form_str), Some("Square"));
}

#[test]
fn lena_baris() {
    let r = mine_variant_name(
        "BARIS 52 LED Z 1143mm 1900lm 840 IP44 I cl. PRM Anoda CO 16W NO DIFFUSER",
    );
    assert_eq!(r.flux_lm, Some(1900));
    assert_eq!(r.power_w, Some(16));
    assert_eq!(r.cct_k, Some(4000));
    assert_eq!(r.cri_ra_min, Some(80));
    assert_eq!(r.ip_code.and_then(ip_code_str), Some("IP44"));
    assert!(!r.is_emergency);
}

#[test]
fn lena_madera() {
    let r = mine_variant_name("MADERA 3 LED 480x480mm 3100lm 830 IP44 OPAL WHITE (26W)");
    assert_eq!(r.flux_lm, Some(3100));
    assert_eq!(r.power_w, Some(26));
    assert_eq!(r.cct_k, Some(3000));
    assert_eq!(r.cri_ra_min, Some(80));
    assert_eq!(r.ip_code.and_then(ip_code_str), Some("IP44"));
}

#[test]
fn rejects_non_canonical_ip() {
    let r = mine_variant_name("Some Luminaire IP99 weird");
    assert!(r.ip_code.is_none(), "IP99 is not in the canonical set");
}

#[test]
fn product_form_round_matches_rectangular_kw() {
    let r = mine_variant_name("SlimBlend Rectangular, suspended");
    assert_eq!(r.product_form.and_then(product_form_str), Some("Square"));
}

#[test]
fn empty_name_yields_default() {
    let r = mine_variant_name("");
    let d = MinedFromName::default();
    assert_eq!(r.flux_lm, d.flux_lm);
    assert_eq!(r.power_w, d.power_w);
    assert_eq!(r.cct_k, d.cct_k);
    assert_eq!(r.cri_ra_min, d.cri_ra_min);
    assert_eq!(r.beam_deg, d.beam_deg);
    assert_eq!(r.ip_code, d.ip_code);
    assert_eq!(r.ik_rating, d.ik_rating);
    assert_eq!(r.product_form, d.product_form);
    assert_eq!(r.is_emergency, d.is_emergency);
    assert_eq!(r.keywords, d.keywords);
    assert_eq!(r.applications.to_vec(), d.applications.to_vec());
    assert!(d.flux_lm.is_none() && d.keywords.is_empty() && d.applications.is_empty());
}

#[test]
fn din_code_does_not_eat_lumens() {
    let r = mine_variant_name("Foo 1900lm Bar");
    assert_eq!(r.flux_lm, Some(1900));
    assert_eq!(r.cct_k, None);
    assert_eq!(r.cri_ra_min, None);
}

#[test]
fn explicit_cct_fallback() {
    let r = mine_variant_name("LED panel 4000K 30W");
    assert_eq!(r.cct_k, Some(4000));
    assert_eq!(r.cri_ra_min, None);
    assert_eq!(r.power_w, Some(30));
}

#[test]
fn asymmetric_beam_picks_smaller_when_both_real_angles() {
    let r = mine_variant_name("Spot 10x60° 20W");
    assert_eq!(r.beam_deg, Some(10));
}

#[test]
fn count_times_beam_uses_the_angle_not_the_count() {
    let r = mine_variant_name("Spot 2x42° 15W");
    assert_eq!(r.beam_deg, Some(42));
}

#[test]
fn keywords_include_canonical_forms() {
    let r = mine_variant_name("Light 22W 1500lm IP65 4000K");
    let kw: Vec<&str> = r.keywords.iter().map(|s| s.as_str()).collect();
    assert!(kw.contains(&"22W"), "missing 22W in {kw:?}");
    assert!(kw.contains(&"1500lm"), "missing 1500lm in {kw:?}");
    assert!(kw.contains(&"IP65"), "missing IP65 in {kw:?}");
    assert!(kw.contains(&"4000K"), "missing 4000K in {kw:?}");
}

#[test]
fn applications_mine_office_from_name() {
    let r = mine_variant_name("LedFlex Office Pendant 38W 4000K");
    assert!(
        !r.applications.is_empty(),
        "expected at least one applications match"
    );
    let canonical_hit = r.applications.to_vec().iter().any(|id| {
        application_str(*id).map(|s| s.contains("Office")).unwrap_or(false)
    });
    assert!(canonical_hit, "expected an Office-family application id");
}

#[test]
fn applications_mine_streets_from_name() {
    let r = mine_variant_name("UrbanPro Street LED 80W 5000K");
    let canonical_hit = r.applications.to_vec().iter().any(|id| {
        application_str(*id).map(|s| s.contains("Streets")).unwrap_or(false)
    });
    assert!(canonical_hit, "expected a Streets-family application id");
}

#[test]
fn applications_no_match_on_generic_names() {
    let r = mine_variant_name("BARIS 52 LED Z 1143mm 1900lm 840 IP44 16W");
    assert!(
        r.applications.is_empty(),
        "unexpected matches: {:?}",
        r.applications.to_vec()
    );
}

#[test]
fn applications_skip_short_and_stopword_probes() {
    let probes = application_leaves_lower();
    assert!(!probes.iter().any(|(p, _)| p == "areas"));
    assert!(!probes.iter().any(|(p, _)| p.len() < 4));
}

#[test]
fn flux_takes_the_last_mention() {
    let r = mine_variant_name("Spot 100lm bare, 90lm net");
    assert_eq!(r.flux_lm, Some(90));
}

#[test]
fn power_of_several_emitters_is_multiplied() {
    let r = mine_variant_name("Bar 3x20W");
    assert_eq!(r.power_w, Some(60));
}

#[test]
fn words_match_whole() {
    assert!(substr_word_match("round table", "round"));
    assert!(!substr_word_match("groundwork", "round"));
    assert!(substr_word_match("a-round-b", "round"));
}

#[test]
fn product_form_names_its_keyword() {
    let (id, word) = scan_product_form("Linear Profile").unwrap();
    assert_eq!(product_form_str(id), Some(word));
    assert!(scan_product_form("Nothing here").is_none());
}

#[test]
fn mining_works_on_given_matches() {
    let name = "Light 22W IK08";
    let m = match_name(name);
    assert_eq!(m.power, vec![vec!["22W".to_string(), "22".to_string()]]);
    let probes = application_leaves_lower();
    let r = mine_matches(name, &m, &probes);
    assert_eq!(r.power_w, Some(22));
    assert_eq!(r.ik_rating, id_of(Axis::IkRating, "IK08"));
}

#[test]
fn application_paths_come_apart() {
    assert_eq!(simple_singular("streets"), "street");
    assert_eq!(leaf_of("Interior: Office: Office Desks"), "Office Desks");
    assert_eq!(top_of("Interior: Office: Office Desks"), "Interior");
    assert_eq!(mid_of("Interior: Office: Office Desks"), Some("Office".to_string()));
    assert_eq!(mid_of("Interior"), None);
    let id = (0u8..=255).find(|i| application_str(*i).is_some()).unwrap();
    assert!(application_top(id).is_some());
    assert!(application_str(id).unwrap().starts_with(application_top(id).unwrap().as_str()));
    let gap = (0u8..=255).find(|i| application_str(*i).is_none()).unwrap();
    assert_eq!(application_top(gap), None);
    assert_eq!(application_mid(gap), None);
}
