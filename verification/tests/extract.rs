use gldf_search::doc::{MountingPlace, MountingType, SourceRef};
use gldf_search::extract::{
    extract, extract_with, merge_photometry, pluck_cie97_lamp_type, pluck_control_gear_interfaces,
    ExtractInput, ExtractWarning, LdtFile, LdtText, TypedFacets,
};
use gldf_search::geometry::variant_mounting;
use gldf_search::keys::key_of_bits;
use gldf_search::photometry::read_ldt;
use gldf_search::product::{
    CeilingMounting, FileEntry, FormatVersion, Header, LocaleEntry, Mountings, Product,
    ProductVariant,
};
use gldf_search::tables::{id_of, Axis};

fn key(x: f32) -> i32 {
    key_of_bits(x.to_bits())
}

fn make_variant(id: &str, name_en: &str) -> ProductVariant {
    ProductVariant {
        id: id.to_string(),
        name: vec![LocaleEntry { language: "en".to_string(), value: name_en.to_string() }],
        description: vec![],
        product_number: vec![],
        tender_text: vec![],
        gtin: None,
        mountings: None,
        model_geometry: false,
        applications: vec![],
        labels: vec![],
        designer: None,
        product_form: None,
        ik_rating: None,
        adjustabilities: vec![],
        protective_areas: vec![],
        weight_kg: None,
        ip_code: None,
        safety_class: None,
        light_distribution: None,
        has_emergency: false,
        emergency_lighting_type: None,
    }
}

fn make_gldf(manufacturer: &str, unique_id: Option<&str>, variants: Vec<ProductVariant>) -> Product {
    Product {
        header: Header {
            manufacturer: manufacturer.to_string(),
            unique_gldf_id: unique_id.map(String::from),
            default_language: None,
            created_with_application: String::new(),
            format_version: FormatVersion { major: 1, minor: 0, pre_release: None },
        },
        files: vec![],
        changeable_lamp_types: vec![],
        fixed_lamp_types: vec![],
        control_gear_interfaces: vec![],
        name: vec![LocaleEntry { language: "en".to_string(), value: "Test Product".to_string() }],
        description: vec![],
        tender_text: vec![],
        product_number: vec![],
        variants,
    }
}

#[test]
fn extract_mines_facets_from_variant_name() {
    let gldf = make_gldf(
        "Test Co.",
        Some("urn:uuid:test-0001"),
        vec![make_variant("v0", "TEST 16W 1500lm IP65 840")],
    );
    let out = extract(&gldf, ExtractInput::default(), &LdtText::Unreadable);
    assert!(out.warnings.is_empty(), "warnings: {:?}", out.warnings);
    assert_eq!(out.doc.manufacturer, "Test Co.");
    assert_eq!(out.doc.product, "Test Product");
    assert!(
        out.doc.ip_code.is_some(),
        "IP65 should populate doc.ip_code"
    );
    let variant = &out.doc.variants[0];
    let p = variant.photometry.as_ref().expect("mined photometry");
    assert_eq!(p.flux_lm, Some(key(1500.0)));
    assert_eq!(p.power_w, Some(key(16.0)));
    assert_eq!(p.cct_k, Some(4000));
    assert_eq!(p.cri_ra, Some(80));
}

#[test]
fn empty_manufacturer_warns() {
    let gldf = make_gldf(
        "",
        Some("urn:uuid:test-0002"),
        vec![make_variant("v0", "name")],
    );
    let out = extract(&gldf, ExtractInput::default(), &LdtText::Unreadable);
    assert!(out
        .warnings
        .iter()
        .any(|w| matches!(w, ExtractWarning::ManufacturerEmpty)));
}

#[test]
fn variant_without_minable_info_has_no_photometry() {
    let gldf = make_gldf(
        "Test Co.",
        Some("urn:uuid:test-0003"),
        vec![make_variant("v0", "Just A Name")],
    );
    let out = extract(&gldf, ExtractInput::default(), &LdtText::Unreadable);
    let v = &out.doc.variants[0];
    assert!(v.photometry.is_none());
    assert!(out.warnings.iter().any(
        |w| matches!(w, ExtractWarning::PhotometryMissing { variant_id } if variant_id == "v0")
    ));
}

#[test]
fn doc_id_falls_back_to_blake3_when_unique_id_missing() {
    let gldf = make_gldf("Acme", None, vec![make_variant("v0", "x")]);
    let bytes = b"fake gldf bytes";
    let out = extract(
        &gldf,
        ExtractInput { raw_bytes: Some(bytes), ..Default::default() },
        &LdtText::Unreadable,
    );
    assert_ne!(out.doc.id.0, [0u8; 32]);
    assert!(!out
        .warnings
        .iter()
        .any(|w| matches!(w, ExtractWarning::DocIdUnavailable)));
}

#[test]
fn missing_both_doc_id_inputs_warns() {
    let gldf = make_gldf("Acme", None, vec![make_variant("v0", "x")]);
    let out = extract(&gldf, ExtractInput::default(), &LdtText::Unreadable);
    assert_eq!(out.doc.id.0, [0u8; 32]);
    assert!(out
        .warnings
        .iter()
        .any(|w| matches!(w, ExtractWarning::DocIdUnavailable)));
}

#[test]
fn keywords_include_mined_tokens() {
    let gldf = make_gldf(
        "Acme",
        Some("urn:uuid:kw"),
        vec![make_variant("v0", "Round 22W 4000K IP65")],
    );
    let out = extract(&gldf, ExtractInput::default(), &LdtText::Unreadable);
    let kws: Vec<&str> = out.doc.keywords.iter().map(|s| s.as_str()).collect();
    assert!(kws.contains(&"IP65"), "kws: {kws:?}");
    assert!(kws.contains(&"4000K"), "kws: {kws:?}");
    assert!(kws.contains(&"22W"), "kws: {kws:?}");
    assert!(kws.contains(&"Round"), "kws: {kws:?}");
}

#[test]
fn two_variants_union_keywords() {
    let gldf = make_gldf(
        "Acme",
        Some("urn:uuid:multi"),
        vec![
            make_variant("v0", "Round 10W IP44"),
            make_variant("v1", "Round 20W IP65"),
        ],
    );
    let out = extract(&gldf, ExtractInput::default(), &LdtText::Unreadable);
    let kws: Vec<&str> = out.doc.keywords.iter().map(|s| s.as_str()).collect();
    assert!(kws.contains(&"IP44"));
    assert!(kws.contains(&"IP65"));
    assert!(kws.contains(&"10W"));
    assert!(kws.contains(&"20W"));
}

fn with_ldc(mut p: Product) -> Product {
    p.files = vec![FileEntry {
        id: "ldc1".to_string(),
        content_type: "ldc/eulumdat".to_string(),
        type_attr: "localFileName".to_string(),
        file_name: "a.ldt".to_string(),
    }];
    p
}

fn ldt_text() -> String {
    let head = [
        "Company", "1", "1", "1", "0", "3", "5", "r", "n", "no", "f", "d", "100", "50", "30", "80",
        "40", "0", "0", "0", "0", "90", "95", "1", "0", "1", "1", "LED", "2000", "830", "80", "20",
    ];
    let mut lines: Vec<String> = head.iter().map(|s| s.to_string()).collect();
    for _ in 0..10 {
        lines.push("0.5".to_string());
    }
    for s in ["0", "0", "5", "10", "100", "80", "20"] {
        lines.push(s.to_string());
    }
    lines.join("\n")
}

#[test]
fn file_figures_win_over_mined_ones() {
    let gldf = with_ldc(make_gldf(
        "Acme",
        Some("u"),
        vec![make_variant("v0", "Spot 10W 1000lm 940 30°")],
    ));
    let out = extract(&gldf, ExtractInput::default(), &LdtText::Text(ldt_text()));
    assert!(out.warnings.is_empty(), "{:?}", out.warnings);
    let p = out.doc.variants[0].photometry.unwrap();
    assert_eq!(p.flux_lm, Some(key(2000.0)));
    assert_eq!(p.power_w, Some(key(20.0)));
    assert_eq!(p.efficacy_lm_w, Some(key(100.0)));
    assert_eq!(p.cct_k, Some(3000));
    assert_eq!(p.cri_ra, Some(80));
}

#[test]
fn bad_file_warns_and_falls_back() {
    let gldf = with_ldc(make_gldf("Acme", Some("u"), vec![make_variant("v0", "Spot 10W")]));
    for bad in [LdtText::Unreadable, LdtText::Text("nonsense".to_string())] {
        let out = extract(&gldf, ExtractInput::default(), &bad);
        assert_eq!(
            out.warnings,
            vec![ExtractWarning::PhotometryParseFailed {
                variant_id: "v0".to_string(),
                file_id: "ldc1".to_string(),
            }]
        );
        assert_eq!(out.doc.variants[0].photometry.unwrap().power_w, Some(key(10.0)));
    }
}

#[test]
fn product_without_a_file_says_nothing_of_one() {
    let gldf = make_gldf("Acme", Some("u"), vec![make_variant("v0", "Spot 10W")]);
    let out = extract(&gldf, ExtractInput::default(), &LdtText::Unreadable);
    assert!(out.warnings.is_empty());
}

#[test]
fn extraction_goes_by_what_was_read() {
    let gldf = with_ldc(make_gldf("Acme", Some("u"), vec![make_variant("v0", "Spot 10W")]));
    let read = LdtFile::Read(read_ldt(&ldt_text()).unwrap());
    let a = extract_with(&gldf, ExtractInput::default(), &read);
    let b = extract(&gldf, ExtractInput::default(), &LdtText::Text(ldt_text()));
    assert_eq!(a.doc.variants[0].photometry, b.doc.variants[0].photometry);
    let c = extract_with(&gldf, ExtractInput::default(), &LdtFile::Malformed);
    assert_eq!(c.warnings.len(), 1);
}

#[test]
fn foreign_values_warn_and_stay_findable() {
    let mut v = make_variant("v0", "Spot 10W");
    v.ip_code = Some("IP123".to_string());
    v.applications = vec!["Nowhere".to_string()];
    let mut warnings = Vec::new();
    let typed = TypedFacets::from_variant(&v, &mut warnings);
    assert_eq!(typed.ip_code, None);
    assert!(typed.applications.is_empty());
    assert_eq!(warnings.len(), 2);
    assert!(warnings.iter().any(|w| matches!(
        w,
        ExtractWarning::NonCanonicalEnumValue { field, value, .. }
            if *field == "Application" && value == "Nowhere"
    )));
    let mut kws = typed.raw_keywords.clone();
    kws.sort();
    assert_eq!(kws, vec!["IP123".to_string(), "Nowhere".to_string()]);
}

#[test]
fn typed_values_win_over_mined_ones() {
    let mut v = make_variant("v0", "Spot 10W IP44");
    v.ip_code = Some("IP65".to_string());
    let gldf = make_gldf("Acme", Some("u"), vec![v]);
    let out = extract(&gldf, ExtractInput::default(), &LdtText::Unreadable);
    assert_eq!(out.doc.ip_code, id_of(Axis::IpCode, "IP65"));
}

#[test]
fn source_and_version_are_kept() {
    let gldf = make_gldf("Acme", Some("u"), vec![]);
    let out = extract(
        &gldf,
        ExtractInput { source: Some(SourceRef::Path("a/b.gldf".to_string())), ..Default::default() },
        &LdtText::Unreadable,
    );
    assert!(matches!(&out.doc.source, SourceRef::Path(p) if p == "a/b.gldf"));
    assert_eq!(out.doc.source_paths.len(), 1);
    assert_eq!(out.doc.file_meta.format_version, Some("1.0.0".to_string()));
    assert_eq!(out.doc.file_meta.size_bytes, 0);
}

#[test]
fn mountings_are_told_apart() {
    let ceiling = |recessed, surface_mounted, pendant| {
        Some(Mountings {
            ceiling: Some(CeilingMounting { recessed, surface_mounted, pendant }),
            wall: None,
            working_plane: None,
            ground: None,
        })
    };
    let m = variant_mounting(&ceiling(Some(90), false, false));
    assert_eq!(m.place, MountingPlace::Ceiling);
    assert_eq!(m.kind, MountingType::Recessed);
    assert_eq!(m.recessed_depth_mm, Some(90));
    let m = variant_mounting(&ceiling(None, true, false));
    assert_eq!((m.kind, m.recessed_depth_mm), (MountingType::SurfaceMounted, None));
    let m = variant_mounting(&ceiling(None, false, true));
    assert_eq!(m.kind, MountingType::Pendant);
    let m = variant_mounting(&None);
    assert_eq!((m.place, m.kind), (MountingPlace::Unknown, MountingType::Unknown));
}

#[test]
fn emitters_give_lamp_type_and_interfaces() {
    let mut gldf = make_gldf("Acme", Some("u"), vec![make_variant("v0", "x")]);
    let lamp = gldf_search::tables::value_of(Axis::LampType, 0).unwrap();
    let gear = gldf_search::tables::value_of(Axis::ControlGearInterface, 1).unwrap();
    gldf.fixed_lamp_types = vec![lamp.to_string()];
    gldf.control_gear_interfaces = vec![gear.to_string(), "unheard of".to_string(), gear.to_string()];
    assert_eq!(pluck_cie97_lamp_type(&gldf), Some(0));
    assert_eq!(pluck_control_gear_interfaces(&gldf).to_vec(), vec![1]);
}

#[test]
fn merging_fills_gaps() {
    let mut a = extract(
        &make_gldf("A", Some("u"), vec![make_variant("v", "1500lm")]),
        ExtractInput::default(),
        &LdtText::Unreadable,
    );
    let mut b = extract(
        &make_gldf("A", Some("u"), vec![make_variant("v", "15W 840")]),
        ExtractInput::default(),
        &LdtText::Unreadable,
    );
    let flux = a.doc.variants.remove(0).photometry;
    let power = b.doc.variants.remove(0).photometry;
    let m = merge_photometry(flux, power, None).unwrap();
    assert_eq!(m.flux_lm, Some(key(1500.0)));
    assert_eq!(m.power_w, Some(key(15.0)));
    assert_eq!(m.cct_k, Some(4000));
    assert!(merge_photometry(None, None, None).is_none());
    assert_eq!(merge_photometry(None, None, Some(3)).unwrap().light_distribution, Some(3));
}
