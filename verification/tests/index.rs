use gldf_search::doc::{
    DocId, FileMeta, LuminaireDoc, MountingPlace, MountingType, PhotometricSymmetryHint,
    PhotometryStats, SourceRef, VariantDoc,
};
use gldf_search::facets::{relax_filter, FacetField};
use gldf_search::filter::{Filter, KeyRange};
use gldf_search::hits::Pagination;
use gldf_search::ids::IdList;
use gldf_search::index::{InMemoryIndex, IndexSource};
use gldf_search::keys::{bits_of_key, key_of_bits};
use gldf_search::panel::on_toggle;
use gldf_search::suggest::FacetSuggestion;
use gldf_search::tables::{value_of, Axis};

fn key(x: f32) -> i32 {
    key_of_bits(x.to_bits())
}

fn number(k: i32) -> f32 {
    f32::from_bits(bits_of_key(k))
}

fn doc_id(seed: u8) -> DocId {
    DocId([seed; 32])
}

fn mk_variant(flux: f32, power: f32, cct: u16) -> VariantDoc {
    VariantDoc {
        id: 0,
        name: String::from("v"),
        photometry: Some(PhotometryStats {
            flux_lm: Some(key(flux)),
            power_w: Some(key(power)),
            efficacy_lm_w: if power > 0.0 {
                Some(key(flux / power))
            } else {
                None
            },
            cct_k: Some(cct),
            cri_ra: Some(80),
            r9: None,
            beam_deg: Some(key(30.0)),
            field_deg: None,
            ulor: None,
            dlor: None,
            symmetry: PhotometricSymmetryHint::Rotational,
            light_distribution: Some(11),
        }),
        mounting_place: MountingPlace::Ceiling,
        mounting_type: MountingType::SurfaceMounted,
        recessed_depth_mm: None,
        has_3d: false,
        lamp_type: None,
        control_gear_interfaces: IdList::of(&[]),
        has_emergency_lighting: false,
        emergency_lighting_type: None,
        emitter_count: 1,
        source_index: 0,
    }
}

fn mk_doc(id: u8, manufacturer: &str, product: &str, ip_code: Option<u8>) -> LuminaireDoc {
    LuminaireDoc {
        id: doc_id(id),
        source: SourceRef::ContentOnly,
        source_paths: vec![SourceRef::ContentOnly],
        manufacturer: String::from(manufacturer),
        product: String::from(product),
        gtin: None,
        product_code: None,
        descriptions: vec![],
        keywords: vec![],
        applications: IdList::of(&[]),
        labels: IdList::of(&[]),
        adjustability: IdList::of(&[]),
        ip_code,
        safety_class: None,
        ik_rating: None,
        product_form: None,
        variants: vec![mk_variant(1500.0, 15.0, 4000)],
        file_meta: FileMeta {
            size_bytes: 0,
            mtime_epoch_s: None,
            format_version: None,
        },
    }
}

#[test]
fn empty_filter_returns_everything() {
    let idx = InMemoryIndex::from_docs(vec![
        mk_doc(1, "Acme", "P1", Some(0)),
        mk_doc(2, "Beta", "P2", Some(1)),
    ]);
    let r = idx.search(&Filter::default(), Pagination::default());
    assert_eq!(r.total, 2);
    assert_eq!(r.hits.len(), 2);
}

#[test]
fn manufacturer_filter_narrows() {
    let idx = InMemoryIndex::from_docs(vec![
        mk_doc(1, "Acme", "P1", Some(0)),
        mk_doc(2, "Beta", "P2", Some(1)),
        mk_doc(3, "Acme", "P3", Some(0)),
    ]);
    let f = Filter {
        manufacturer: Some(vec![String::from("Acme")]),
        ..Default::default()
    };
    let r = idx.search(&f, Pagination::default());
    assert_eq!(r.total, 2);
}

#[test]
fn pagination_returns_window_but_keeps_total() {
    let docs: Vec<LuminaireDoc> = (1..=5_u8)
        .map(|i| mk_doc(i, "Acme", "P", Some(0)))
        .collect();
    let idx = InMemoryIndex::from_docs(docs);
    let r = idx.search(
        &Filter::default(),
        Pagination {
            offset: 2,
            limit: 2,
        },
    );
    assert_eq!(r.total, 5);
    assert_eq!(r.hits.len(), 2);
}

#[test]
fn doc_lookup_works() {
    let idx = InMemoryIndex::from_docs(vec![mk_doc(42, "Acme", "P", Some(0))]);
    assert!(idx.doc(&doc_id(42)).is_some());
    assert!(idx.doc(&doc_id(99)).is_none());
}

#[test]
fn facets_count_per_value() {
    let idx = InMemoryIndex::from_docs(vec![
        mk_doc(1, "Acme", "P1", Some(0)),
        mk_doc(2, "Acme", "P2", Some(0)),
        mk_doc(3, "Beta", "P3", Some(1)),
    ]);
    let counts = idx.facets(&Filter::default(), &[FacetField::Manufacturer]);
    assert_eq!(counts.manufacturer.len(), 2);
    assert_eq!(counts.manufacturer[0].value, "Acme");
    assert_eq!(counts.manufacturer[0].count, 2);
    assert_eq!(counts.manufacturer[1].value, "Beta");
    assert_eq!(counts.manufacturer[1].count, 1);
}

#[test]
fn facet_relaxes_only_the_field_being_counted() {
    let idx = InMemoryIndex::from_docs(vec![
        mk_doc(1, "Acme", "P1", Some(0)),
        mk_doc(2, "Acme", "P2", Some(1)),
        mk_doc(3, "Beta", "P3", Some(0)),
    ]);
    let f = Filter {
        manufacturer: Some(vec![String::from("Acme")]),
        ip_code: IdList::of(&[0]),
        ..Default::default()
    };
    let counts = idx.facets(&f, &[FacetField::Manufacturer, FacetField::IpCode]);
    assert_eq!(counts.manufacturer.len(), 2);
    assert_eq!(counts.ip_code.len(), 2);
}

#[test]
fn has_photometry_facet_counts_present_and_missing() {
    let doc_with = mk_doc(1, "Acme", "with", Some(0));
    let mut doc_without = mk_doc(2, "Acme", "without", Some(0));
    for v in doc_without.variants.iter_mut() {
        v.photometry = None;
    }
    let _ = doc_with.variants[0].photometry.as_ref().unwrap();
    let idx = InMemoryIndex::from_docs(vec![doc_with, doc_without]);
    let counts = idx.facets(&Filter::default(), &[FacetField::HasPhotometry]);
    let values: Vec<(&str, u32)> = counts
        .has_photometry
        .iter()
        .map(|c| (c.value.as_str(), c.count))
        .collect();
    assert!(values.contains(&("present", 1)), "got: {values:?}");
    assert!(values.contains(&("missing", 1)), "got: {values:?}");
}

fn two_sided() -> LuminaireDoc {
    let mut d = mk_doc(1, "Acme", "P1", Some(0));
    let mut wall = mk_variant(1500.0, 15.0, 4000);
    wall.mounting_place = MountingPlace::Wall;
    wall.has_3d = true;
    d.variants.push(wall);
    d
}

#[test]
fn one_variant_has_to_meet_filter_and_value() {
    let idx = InMemoryIndex::from_docs(vec![two_sided()]);
    let f = Filter { has_3d: Some(true), ..Default::default() };
    let counts = idx.facets(&f, &[FacetField::MountingPlace, FacetField::Has3d]);
    let places: Vec<(&str, u32)> =
        counts.mounting_place.iter().map(|c| (c.value.as_str(), c.count)).collect();
    assert_eq!(places, vec![("Wall", 1)]);
    let models: Vec<(&str, u32)> =
        counts.has_3d.iter().map(|c| (c.value.as_str(), c.count)).collect();
    assert_eq!(models, vec![("missing", 1), ("present", 1)]);
}

#[test]
fn choosing_a_value_leaves_as_many_docs_as_counted() {
    let mut lit = mk_doc(2, "Acme", "P2", Some(1));
    lit.variants[0].lamp_type = Some(0);
    lit.variants[0].emergency_lighting_type = Some(0);
    lit.variants[0].control_gear_interfaces = IdList::of(&[0, 1]);
    lit.labels = IdList::of(&[0, 1]);
    let docs = vec![two_sided(), lit, mk_doc(3, "Beta", "P3", Some(0))];
    let idx = InMemoryIndex::from_docs(docs.iter().map(|d| d.copy()).collect());
    let fields = [
        FacetField::Manufacturer,
        FacetField::Labels,
        FacetField::IpCode,
        FacetField::MountingPlace,
        FacetField::MountingType,
        FacetField::LightDistribution,
        FacetField::HasPhotometry,
        FacetField::Has3d,
        FacetField::HasEmergencyLighting,
        FacetField::LampType,
        FacetField::ControlGearInterface,
        FacetField::EmergencyLightingType,
    ];
    let filters = [
        Filter::default(),
        Filter { has_3d: Some(true), ..Default::default() },
        Filter { manufacturer: Some(vec![String::from("Acme")]), ..Default::default() },
    ];
    for f in &filters {
        for field in fields {
            let mut list = Vec::new();
            let counts = idx.facets(f, &[field]);
            for all in [
                &counts.manufacturer,
                &counts.labels,
                &counts.ip_code,
                &counts.mounting_place,
                &counts.mounting_type,
                &counts.light_distribution,
                &counts.has_photometry,
                &counts.has_3d,
                &counts.has_emergency_lighting,
                &counts.lamp_type,
                &counts.control_gear_interfaces,
                &counts.emergency_lighting_type,
            ] {
                list.extend(all.iter().map(|c| (c.value.clone(), c.count)));
            }
            for (value, count) in list {
                let mut only = relax_filter(f, field);
                on_toggle(&mut only, field, &value);
                let left = docs.iter().filter(|d| only.matches_doc(d)).count();
                assert_eq!(left as u32, count, "{field:?} {value}");
            }
        }
    }
}

fn mk_doc_with_codes(
    id: u8,
    manufacturer: &str,
    product: &str,
    gtin: Option<&str>,
    product_code: Option<&str>,
) -> LuminaireDoc {
    let mut d = mk_doc(id, manufacturer, product, Some(0));
    d.gtin = gtin.map(String::from);
    d.product_code = product_code.map(String::from);
    d
}

#[test]
fn lookup_article_exact_match() {
    let idx = InMemoryIndex::from_docs(vec![
        mk_doc_with_codes(1, "Acme", "P1", Some("4012345678901"), None),
        mk_doc_with_codes(2, "Beta", "P2", None, Some("BX-200")),
    ]);
    assert_eq!(idx.lookup_article("4012345678901").len(), 1);
    assert_eq!(idx.lookup_article("4012345678901")[0].id, doc_id(1));
    assert_eq!(idx.lookup_article("BX-200").len(), 1);
    assert_eq!(idx.lookup_article("BX-200")[0].id, doc_id(2));
}

#[test]
fn lookup_article_normalises_separators_and_case() {
    let idx = InMemoryIndex::from_docs(vec![mk_doc_with_codes(
        1,
        "Acme",
        "P",
        None,
        Some("ART-1234"),
    )]);
    assert_eq!(idx.lookup_article("art1234").len(), 1);
    assert_eq!(idx.lookup_article("ART 1234").len(), 1);
    assert_eq!(idx.lookup_article("art.1234").len(), 1);
}

#[test]
fn lookup_article_misses_return_empty() {
    let idx =
        InMemoryIndex::from_docs(vec![mk_doc_with_codes(1, "Acme", "P", None, Some("X1"))]);
    assert!(idx.lookup_article("nope").is_empty());
    assert!(idx.lookup_article("").is_empty());
    assert!(idx.lookup_article(" - . / ").is_empty());
}

#[test]
fn lookup_article_returns_all_matches_when_shared() {
    let idx = InMemoryIndex::from_docs(vec![
        mk_doc_with_codes(1, "Acme", "P1", None, Some("SHARED")),
        mk_doc_with_codes(2, "Beta", "P2", None, Some("shared")),
    ]);
    let hits = idx.lookup_article("SHARED");
    assert_eq!(hits.len(), 2);
}

#[test]
fn suggest_articles_min_3_chars() {
    let idx = InMemoryIndex::from_docs(vec![
        mk_doc_with_codes(1, "Acme", "P1", None, Some("ART123")),
    ]);
    assert!(idx.suggest_articles("ar", 10).is_empty());
    assert!(idx.suggest_articles("a", 10).is_empty());
    let s = idx.suggest_articles("art", 10);
    assert_eq!(s.len(), 1);
    assert_eq!(s[0].article, "ART123");
    assert_eq!(s[0].manufacturer, "Acme");
}

#[test]
fn suggest_articles_preserves_cosmetic_variants() {
    let idx = InMemoryIndex::from_docs(vec![
        mk_doc_with_codes(1, "Acme", "P1", None, Some("ART-123")),
        mk_doc_with_codes(2, "Acme", "P2", None, Some("ART123")),
    ]);
    let s = idx.suggest_articles("art", 10);
    assert_eq!(s.len(), 2, "got: {s:?}");
    let originals: Vec<&str> = s.iter().map(|x| x.article.as_str()).collect();
    assert!(originals.contains(&"ART-123"));
    assert!(originals.contains(&"ART123"));
}

#[test]
fn suggest_articles_caps_at_limit() {
    let docs: Vec<LuminaireDoc> = (1..=10_u8)
        .map(|i| {
            mk_doc_with_codes(
                i,
                "Acme",
                "P",
                None,
                Some(&format!("ART{:03}", i)),
            )
        })
        .collect();
    let idx = InMemoryIndex::from_docs(docs);
    let s = idx.suggest_articles("art", 4);
    assert_eq!(s.len(), 4);
}

#[test]
fn suggest_facets_manufacturer_prefix() {
    let idx = InMemoryIndex::from_docs(vec![
        mk_doc(1, "AEC Illuminazione", "P1", Some(0)),
        mk_doc(2, "ERCO", "P2", Some(0)),
        mk_doc(3, "AEC Illuminazione", "P3", Some(0)),
    ]);
    let s = idx.suggest_facets("aec", 5);
    assert!(!s.is_empty(), "got: {s:?}");
    let first = &s[0];
    match first {
        FacetSuggestion::Manufacturer { value, count } => {
            assert_eq!(value, "AEC Illuminazione");
            assert_eq!(*count, 2);
        }
        _ => panic!("expected Manufacturer suggestion, got {first:?}"),
    }
}

#[test]
fn suggest_facets_ip_code_prefix() {
    let idx = InMemoryIndex::from_docs(vec![
        mk_doc(1, "Acme", "P", Some(0)),
        mk_doc(2, "Acme", "P", Some(0)),
    ]);
    let xsd_str = value_of(Axis::IpCode, 0)
        .expect("ip_code(0) exists in xsd table");
    let prefix: String = xsd_str.chars().take(3).collect::<String>().to_lowercase();
    let s = idx.suggest_facets(&prefix, 10);
    let any_ip = s
        .iter()
        .any(|x| matches!(x, FacetSuggestion::IpCode { .. }));
    assert!(any_ip, "no IpCode suggestion in {s:?}");
}

#[test]
fn suggest_facets_min_2_chars() {
    let idx = InMemoryIndex::from_docs(vec![mk_doc(1, "Acme", "P", Some(0))]);
    assert!(idx.suggest_facets("a", 10).is_empty());
    assert!(idx.suggest_facets("", 10).is_empty());
}

#[test]
fn suggest_articles_prefix_walks_ordered_keys() {
    let idx = InMemoryIndex::from_docs(vec![
        mk_doc_with_codes(1, "Acme", "P1", None, Some("ART100")),
        mk_doc_with_codes(2, "Acme", "P2", None, Some("ART200")),
        mk_doc_with_codes(3, "Bay", "P3", None, Some("BAY999")),
    ]);
    let s = idx.suggest_articles("art", 10);
    assert_eq!(s.len(), 2);
    let s2 = idx.suggest_articles("bay", 10);
    assert_eq!(s2.len(), 1);
}

#[test]
fn facets_use_relaxed_count_not_full_corpus() {
    let idx = InMemoryIndex::from_docs(vec![
        mk_doc(1, "Acme", "P", Some(0)),
        mk_doc(2, "Beta", "P", Some(0)),
        mk_doc(3, "Beta", "P", Some(1)),
    ]);
    let f = Filter {
        manufacturer: Some(vec![String::from("Acme")]),
        ..Default::default()
    };
    let counts = idx.facets(&f, &[FacetField::IpCode]);
    assert_eq!(counts.ip_code.len(), 1);
    assert_eq!(counts.ip_code[0].count, 1);
}

fn doc_with_variant(id: u8, manufacturer: &str, v: VariantDoc) -> LuminaireDoc {
    LuminaireDoc {
        id: doc_id(id),
        source: SourceRef::ContentOnly,
        source_paths: vec![SourceRef::ContentOnly],
        manufacturer: String::from(manufacturer),
        product: String::from("P"),
        gtin: None,
        product_code: None,
        descriptions: vec![],
        keywords: vec![],
        applications: IdList::of(&[]),
        labels: IdList::of(&[]),
        adjustability: IdList::of(&[]),
        ip_code: None,
        safety_class: None,
        ik_rating: None,
        product_form: None,
        variants: vec![v],
        file_meta: FileMeta {
            size_bytes: 0,
            mtime_epoch_s: None,
            format_version: None,
        },
    }
}

#[test]
fn range_bounds_empty_filter_spans_corpus() {
    let idx = InMemoryIndex::from_docs(vec![
        doc_with_variant(1, "Acme", mk_variant(1000.0, 10.0, 3000)),
        doc_with_variant(2, "Beta", mk_variant(5000.0, 50.0, 5000)),
    ]);
    let b = idx.range_bounds(&Filter::default());
    let flux = b.flux_lm.expect("flux bounds should be present");
    assert!((number(flux.min) - 1000.0).abs() < 0.01);
    assert!((number(flux.max) - 5000.0).abs() < 0.01);
    let cct = b.cct_k.expect("cct bounds should be present");
    assert_eq!(cct.min, 3000);
    assert_eq!(cct.max, 5000);
}

#[test]
fn range_bounds_flux_axis_is_relaxed_under_its_own_filter() {
    let idx = InMemoryIndex::from_docs(vec![
        doc_with_variant(1, "Acme", mk_variant(1000.0, 10.0, 3000)),
        doc_with_variant(2, "Acme", mk_variant(3000.0, 30.0, 4000)),
        doc_with_variant(3, "Acme", mk_variant(5000.0, 50.0, 5000)),
    ]);
    let f = Filter {
        flux_lm: Some(KeyRange { lo: key(1500.0), hi: key(2000.0) }),
        ..Default::default()
    };
    let b = idx.range_bounds(&f);
    let flux = b.flux_lm.expect("flux bounds should be present");
    assert!((number(flux.min) - 1000.0).abs() < 0.01);
    assert!((number(flux.max) - 5000.0).abs() < 0.01);
}

#[test]
fn range_bounds_narrows_when_other_filter_active() {
    let idx = InMemoryIndex::from_docs(vec![
        doc_with_variant(1, "Acme", mk_variant(1000.0, 10.0, 3000)),
        doc_with_variant(2, "Beta", mk_variant(5000.0, 50.0, 5000)),
    ]);
    let f = Filter {
        manufacturer: Some(vec![String::from("Acme")]),
        ..Default::default()
    };
    let b = idx.range_bounds(&f);
    let flux = b.flux_lm.expect("flux bounds should be present");
    assert!((number(flux.min) - 1000.0).abs() < 0.01);
    assert!((number(flux.max) - 1000.0).abs() < 0.01);
}

#[test]
fn range_bounds_empty_axis_returns_none() {
    let v_no_phot = VariantDoc {
        photometry: None,
        ..mk_variant(0.0, 0.0, 0)
    };
    let idx = InMemoryIndex::from_docs(vec![doc_with_variant(1, "Acme", v_no_phot)]);
    let b = idx.range_bounds(&Filter::default());
    assert!(b.flux_lm.is_none());
    assert!(b.cct_k.is_none());
}

#[test]
fn range_bounds_recessed_depth_skips_non_recessed_variants() {
    let v_surface = VariantDoc {
        mounting_type: MountingType::SurfaceMounted,
        recessed_depth_mm: Some(15),
        ..mk_variant(1000.0, 10.0, 3000)
    };
    let v_recessed = VariantDoc {
        mounting_type: MountingType::Recessed,
        recessed_depth_mm: Some(40),
        ..mk_variant(2000.0, 20.0, 4000)
    };
    let idx = InMemoryIndex::from_docs(vec![
        doc_with_variant(1, "Acme", v_surface),
        doc_with_variant(2, "Acme", v_recessed),
    ]);
    let b = idx.range_bounds(&Filter::default());
    let depth = b.recessed_depth_mm.expect("depth bounds should be present");
    assert_eq!(depth.min, 40);
    assert_eq!(depth.max, 40);
}

#[test]
fn resolve_manufacturer_exact_single_word() {
    let idx = InMemoryIndex::from_docs(vec![
        mk_doc(1, "Philips", "P", None),
        mk_doc(2, "ERCO", "P", None),
    ]);
    assert_eq!(idx.resolve_manufacturer("philips").as_deref(), Some("Philips"));
    assert_eq!(idx.resolve_manufacturer("PHILIPS").as_deref(), Some("Philips"));
    assert_eq!(idx.resolve_manufacturer("erco").as_deref(), Some("ERCO"));
}

#[test]
fn resolve_manufacturer_hyphen_to_space() {
    let idx = InMemoryIndex::from_docs(vec![mk_doc(1, "AEC Illuminazione", "P", None)]);
    assert_eq!(
        idx.resolve_manufacturer("aec-illuminazione").as_deref(),
        Some("AEC Illuminazione"),
    );
}

#[test]
fn resolve_manufacturer_first_word_only_also_works() {
    let idx = InMemoryIndex::from_docs(vec![mk_doc(1, "AEC Illuminazione", "P", None)]);
    assert_eq!(
        idx.resolve_manufacturer("aec").as_deref(),
        Some("AEC Illuminazione"),
    );
}

#[test]
fn resolve_manufacturer_multi_word_with_dots() {
    let idx = InMemoryIndex::from_docs(vec![mk_doc(1, "Lena Lighting S.A.", "P", None)]);
    assert_eq!(
        idx.resolve_manufacturer("lena").as_deref(),
        Some("Lena Lighting S.A."),
    );
}

#[test]
fn resolve_manufacturer_alias_table_handles_dots() {
    let idx = InMemoryIndex::from_docs(vec![mk_doc(1, "A.L.S.", "P", None)]);
    assert_eq!(idx.resolve_manufacturer("als").as_deref(), Some("A.L.S."));
    assert_eq!(idx.resolve_manufacturer("a-l-s").as_deref(), Some("A.L.S."));
}

#[test]
fn resolve_manufacturer_alias_table_handles_diacritic() {
    let idx = InMemoryIndex::from_docs(vec![mk_doc(1, "nobilé", "P", None)]);
    assert_eq!(idx.resolve_manufacturer("nobile").as_deref(), Some("nobilé"));
}

#[test]
fn resolve_manufacturer_returns_none_for_unknown_slug() {
    let idx = InMemoryIndex::from_docs(vec![mk_doc(1, "Philips", "P", None)]);
    assert!(idx.resolve_manufacturer("does-not-exist").is_none());
}

#[test]
fn resolve_manufacturer_returns_none_for_empty_slug() {
    let idx = InMemoryIndex::from_docs(vec![mk_doc(1, "Philips", "P", None)]);
    assert!(idx.resolve_manufacturer("").is_none());
    assert!(idx.resolve_manufacturer("  ").is_none());
}

#[test]
fn resolve_manufacturer_iguzzini_mixed_case() {
    let idx = InMemoryIndex::from_docs(vec![mk_doc(1, "iGuzzini", "P", None)]);
    assert_eq!(idx.resolve_manufacturer("iguzzini").as_deref(), Some("iGuzzini"));
    assert_eq!(idx.resolve_manufacturer("IGUZZINI").as_deref(), Some("iGuzzini"));
}

#[test]
fn resolve_manufacturer_3f_filippi() {
    let idx = InMemoryIndex::from_docs(vec![mk_doc(1, "3F Filippi", "P", None)]);
    assert_eq!(idx.resolve_manufacturer("3f").as_deref(), Some("3F Filippi"));
    assert_eq!(
        idx.resolve_manufacturer("3f-filippi").as_deref(),
        Some("3F Filippi"),
    );
}

#[test]
fn relaxing_a_field_shows_no_less() {
    let idx = InMemoryIndex::from_docs(vec![
        mk_doc(1, "Acme", "P1", Some(0)),
        mk_doc(2, "Beta", "P2", Some(1)),
    ]);
    let mut f = Filter::default();
    f.ip_code = IdList::of(&[0]);
    let narrow = idx.search(&f, Pagination::default());
    let open = gldf_search::facets::relax_filter(&f, FacetField::IpCode);
    let wide = idx.search(&open, Pagination::default());
    assert_eq!(narrow.total, 1);
    assert_eq!(wide.total, 2);
    assert!(narrow.hits.iter().all(|h| wide.hits.contains(h)));
    let again = gldf_search::facets::relax_filter(&open, FacetField::IpCode);
    assert_eq!(idx.search(&again, Pagination::default()), wide);
}

#[test]
fn pages_side_by_side_are_one_page() {
    let docs: Vec<LuminaireDoc> = (1..=7_u8).map(|i| mk_doc(i, "Acme", "P", Some(0))).collect();
    let idx = InMemoryIndex::from_docs(docs);
    let page = |offset, limit| idx.search(&Filter::default(), Pagination { offset, limit }).hits;
    let mut joined = page(1, 2);
    joined.extend(page(3, 3));
    assert_eq!(joined, page(1, 5));
    assert!(page(7, 3).is_empty());
}

#[test]
fn ranges_take_their_ends_in() {
    let idx = InMemoryIndex::from_docs(vec![doc_with_variant(
        1,
        "Acme",
        mk_variant(1000.0, 10.0, 3000),
    )]);
    let total = |lo: f32, hi: f32| {
        let f = Filter {
            flux_lm: Some(KeyRange { lo: key(lo), hi: key(hi) }),
            ..Default::default()
        };
        idx.search(&f, Pagination::default()).total
    };
    assert_eq!(total(1000.0, 1000.0), 1);
    assert_eq!(total(1000.1, 2000.0), 0);
    assert_eq!(total(f32::NEG_INFINITY, 1000.0), 1);
}

#[test]
fn slugs_fold_to_themselves() {
    let once = gldf_search::slug::fold_slug("AEC-Illuminazione");
    assert_eq!(once, "aec illuminazione");
    assert_eq!(gldf_search::slug::fold_slug(&once), once);
}
