use gldf_search::api::{
    current_manufacturer_scope, data_url, fetch_doc, fetch_docs, fetch_facets, fetch_range_bounds,
    fetch_variants, locate_file, lock_manufacturer, lookup_article, pick_description_snippet,
    product_image, resolve_variant_source, search_docs, suggest_articles, suggest_facets,
    viewer_name, ApiError, VariantRef,
};
use gldf_search::doc::{
    DocId, FileMeta, Locale, LuminaireDoc, MountingPlace, MountingType, PhotometricSymmetryHint,
    PhotometryStats, SourceRef, VariantDoc,
};
use gldf_search::facets::FacetField;
use gldf_search::filter::{Filter, U16Range};
use gldf_search::hex::hex_of;
use gldf_search::hits::Pagination;
use gldf_search::ids::IdList;
use gldf_search::index::{InMemoryIndex, IndexSource};
use gldf_search::inspect::{file_kind, report, FileKind};
use gldf_search::keys::key_of_bits;
use gldf_search::media::{
    read_first_ldt, read_image_for_variant, read_ldt_for_variant, read_product_image,
};
use gldf_search::product::{
    FileEntry, FormatVersion, Header, LocaleEntry, Product, ProductVariant,
};
use gldf_search::query::{encode_filter, parse_query_string};
use gldf_search::report_text::print_report;
use gldf_search::rows::hit_row;
use gldf_search::search::{
    build_filter, clean_setting, join_commas, key_range, page_asked, parse_u16_range,
    path_identity, resolve_corpus_root, run, sort_texts, split_range, Ignored, RangeError,
    SearchArgs, GREATEST_KEY,
};
use gldf_search::tables::{id_of, Axis};

fn key(x: f32) -> i32 {
    key_of_bits(x.to_bits())
}

fn variant(name: &str, flux: f32) -> VariantDoc {
    VariantDoc {
        id: 0,
        name: name.to_string(),
        photometry: Some(PhotometryStats {
            flux_lm: Some(key(flux)),
            power_w: None,
            efficacy_lm_w: None,
            cct_k: Some(4000),
            cri_ra: None,
            r9: None,
            beam_deg: None,
            field_deg: None,
            ulor: None,
            dlor: None,
            symmetry: PhotometricSymmetryHint::Unknown,
            light_distribution: None,
        }),
        mounting_place: MountingPlace::Ceiling,
        mounting_type: MountingType::Recessed,
        recessed_depth_mm: Some(80),
        has_3d: true,
        lamp_type: None,
        control_gear_interfaces: IdList::of(&[]),
        has_emergency_lighting: false,
        emergency_lighting_type: None,
        emitter_count: 1,
        source_index: 0,
    }
}

fn doc(id: u8, manufacturer: &str, product: &str) -> LuminaireDoc {
    LuminaireDoc {
        id: DocId([id; 32]),
        source: SourceRef::Path(format!("{manufacturer}/{product}.gldf")),
        source_paths: vec![SourceRef::Path(format!("{manufacturer}/{product}.gldf"))],
        manufacturer: manufacturer.to_string(),
        product: product.to_string(),
        gtin: Some("4012345".to_string()),
        product_code: Some(format!("ART-{id}00")),
        descriptions: vec![],
        keywords: vec!["IP65".to_string(), "22W".to_string()],
        applications: IdList::of(&[]),
        labels: IdList::of(&[]),
        adjustability: IdList::of(&[]),
        ip_code: id_of(Axis::IpCode, "IP65"),
        safety_class: None,
        ik_rating: None,
        product_form: None,
        variants: vec![variant("v1", 1000.0), variant("v2", 2000.0)],
        file_meta: FileMeta { size_bytes: 0, mtime_epoch_s: None, format_version: None },
    }
}

fn index() -> InMemoryIndex {
    InMemoryIndex::from_docs(vec![
        doc(1, "Acme", "Alpha"),
        doc(2, "Beta", "Bravo"),
        doc(3, "Acme", "Charlie"),
    ])
}

// ---------------------------------------------------------------------
// Scope
// ---------------------------------------------------------------------

#[test]
fn scope_narrows_every_answer() {
    let idx = index();
    let acme = "Acme".to_string();
    let scope = Some(&acme);
    assert_eq!(search_docs(&idx, None, None, None).total, 6);
    assert_eq!(search_docs(&idx, None, None, scope).total, 4);
    let page = Pagination { offset: 1, limit: 2 };
    assert_eq!(search_docs(&idx, None, Some(page), scope).hits.len(), 2);
    let facets = fetch_facets(&idx, None, Some(vec![FacetField::IpCode]), scope);
    assert_eq!(facets.ip_code[0].count, 2);
    assert_eq!(fetch_range_bounds(&idx, None, scope).flux_lm.unwrap().max, key(2000.0));
    let foreign = hex_of(&DocId([2; 32]));
    assert!(fetch_doc(&idx, &foreign, scope).unwrap().is_none());
    assert!(fetch_doc(&idx, &foreign, None).unwrap().is_some());
    let all = vec![foreign.clone(), hex_of(&DocId([1; 32])), "nonsense".to_string()];
    assert_eq!(fetch_docs(&idx, &all, scope).len(), 1);
    assert_eq!(lookup_article(&idx, "art200", scope).len(), 0);
    assert_eq!(lookup_article(&idx, "art200", None).len(), 1);
    assert_eq!(suggest_articles(&idx, "art", None, scope).len(), 2);
    assert!(suggest_facets(&idx, "beta", None, scope).is_empty());
    assert_eq!(suggest_facets(&idx, "beta", None, None).len(), 1);
}

#[test]
fn locked_manufacturer_stays_locked() {
    let acme = "Acme".to_string();
    let mut f = Filter::default();
    f.manufacturer = Some(vec!["Beta".to_string()]);
    lock_manufacturer(&mut f, &acme);
    assert_eq!(f.manufacturer, Some(vec!["Acme".to_string()]));
    lock_manufacturer(&mut f, &acme);
    assert_eq!(f.manufacturer, Some(vec!["Acme".to_string()]));
}

#[test]
fn scope_comes_from_the_host() {
    let idx = index();
    let none = None;
    assert_eq!(
        current_manufacturer_scope(&idx, &none, &Some("acme".to_string())),
        Some("Acme".to_string())
    );
    assert_eq!(current_manufacturer_scope(&idx, &none, &none), None);
    assert_eq!(
        current_manufacturer_scope(&idx, &Some("Beta".to_string()), &Some("acme".to_string())),
        Some("Beta".to_string())
    );
}

#[test]
fn ids_that_are_no_ids_are_refused() {
    let idx = index();
    assert!(matches!(fetch_doc(&idx, "xyz", None), Err(ApiError::InvalidDocId)));
    assert!(matches!(locate_file(&idx, "xyz", None, None), Err(ApiError::InvalidDocId)));
}

#[test]
fn files_are_located() {
    let idx = index();
    let hex = hex_of(&DocId([1; 32]));
    let r = locate_file(&idx, &hex, Some(1), None).unwrap().unwrap();
    assert_eq!(r.rel, "Acme/Alpha.gldf");
    let beta = "Beta".to_string();
    assert!(locate_file(&idx, &hex, Some(1), Some(&beta)).unwrap().is_none());
    let d = doc(9, "Acme", "P");
    assert!(matches!(resolve_variant_source(&d, Some(9)), SourceRef::Path(p) if p == "Acme/P.gldf"));
    assert_eq!(viewer_name(&SourceRef::ContentOnly), None);
}

#[test]
fn rows_hold_what_is_shown() {
    let idx = index();
    let refs = vec![
        VariantRef { doc_id: hex_of(&DocId([3; 32])), variant: 1 },
        VariantRef { doc_id: hex_of(&DocId([3; 32])), variant: 9 },
        VariantRef { doc_id: "bad".to_string(), variant: 0 },
    ];
    let rows = fetch_variants(&idx, &refs, None);
    assert_eq!(rows.len(), 1);
    assert_eq!(rows[0].variant_name, "v2");
    assert_eq!(rows[0].sku, Some("ART-300".to_string()));
    assert_eq!(rows[0].ip_code, Some("IP65".to_string()));
    assert_eq!(rows[0].phot.unwrap().flux_lm, Some(key(2000.0)));
    assert!(rows[0].has_photometry);
    let beta = "Beta".to_string();
    assert!(fetch_variants(&idx, &refs, Some(&beta)).is_empty());
}

#[test]
fn snippets_are_cut() {
    let mut d = doc(1, "Acme", "P");
    assert_eq!(pick_description_snippet(&d), (None, false));
    let en = Locale::from_str("en").unwrap();
    let de = Locale::from_str("de").unwrap();
    d.descriptions = vec![(de, "kurz".to_string()), (en, "x".repeat(300))];
    let (text, cut) = pick_description_snippet(&d);
    assert!(cut);
    assert_eq!(text.unwrap().chars().count(), 201);
    d.descriptions = vec![(de, "kurz".to_string())];
    assert_eq!(pick_description_snippet(&d), (Some("kurz".to_string()), false));
}

#[test]
fn images_are_encoded() {
    let image = product_image("image/png".to_string(), b"hello");
    assert_eq!(image.data_base64, "aGVsbG8=");
    assert_eq!(data_url(&image), "data:image/png;base64,aGVsbG8=");
    assert_eq!(product_image(String::new(), &[0xfb, 0xff]).data_base64, "+/8=");
}

#[test]
fn hit_rows_are_filled() {
    let r = hit_row(&doc(1, "Acme", "Alpha"));
    assert_eq!(r.variants_label, Some("2 variants".to_string()));
    assert_eq!(r.sku, Some("ART-100".to_string()));
    assert_eq!(r.keywords, vec!["22W".to_string(), "IP65".to_string()]);
    assert_eq!(r.stats[0].number, "1000");
    assert_eq!(r.table.len(), 2);
    assert_eq!(r.table[1].mounting, "Ceiling / Recessed");
    assert_eq!(r.table[1].depth, "80 mm");
    assert_eq!(r.table[1].stats, Some("2000 lm \u{b7} 4000 K".to_string()));
}

// ---------------------------------------------------------------------
// Command line
// ---------------------------------------------------------------------

fn asked() -> SearchArgs {
    SearchArgs {
        root: "corpus".to_string(),
        text: None,
        locale: None,
        manufacturer: vec![],
        ip_code: vec![],
        labels: vec![],
        product_form: vec![],
        flux_lm: None,
        cct_k: None,
        has_photometry: None,
        facets: false,
        page: 0,
        limit: 1,
    }
}

#[test]
fn searches_print_their_hits() {
    let idx = index();
    let a = SearchArgs { manufacturer: vec!["Beta".to_string()], facets: true, ..asked() };
    let (lines, ignored) = run(&idx, &a);
    assert!(ignored.is_empty());
    assert_eq!(lines[0], "1 hits of 2 total (page 0, limit 1)");
    assert_eq!(lines[1], "indexed 3 docs from corpus");
    assert_eq!(lines[2], "");
    assert_eq!(lines[3], "\u{2022} [Beta] Bravo");
    assert_eq!(lines[4], "    keywords: 22W, IP65");
    assert_eq!(lines[5], "    ip_code: IP65");
    assert_eq!(lines[6], "");
    assert_eq!(lines[7], "== Manufacturer ==");
    assert_eq!(lines[8], "     2  Acme");
    assert_eq!(lines[9], "     1  Beta");
}

#[test]
fn foreign_words_are_ignored_aloud() {
    let a = SearchArgs {
        locale: Some("english".to_string()),
        ip_code: vec!["IP65".to_string(), "IP99".to_string()],
        labels: vec!["shiny".to_string()],
        product_form: vec!["blob".to_string()],
        ..asked()
    };
    let (f, ignored) = build_filter(&a);
    assert_eq!(f.ip_code.to_vec().len(), 1);
    assert!(f.locale.is_none());
    assert_eq!(
        ignored,
        vec![
            Ignored::Locale("english".to_string()),
            Ignored::IpCode("IP99".to_string()),
            Ignored::Label("shiny".to_string()),
            Ignored::ProductForm("blob".to_string()),
        ]
    );
    assert_eq!(ignored[1].message(), "ignoring non-canonical IP code: IP99");
    let p = page_asked(&SearchArgs { page: 3, limit: 20, ..asked() });
    assert_eq!(p, Pagination { offset: 60, limit: 20 });
}

#[test]
fn ranges_are_read() {
    assert_eq!(parse_u16_range("2700:4000"), Ok(U16Range { lo: 2700, hi: 4000 }));
    assert_eq!(parse_u16_range(":4000"), Ok(U16Range { lo: 0, hi: 4000 }));
    assert_eq!(parse_u16_range("2700:"), Ok(U16Range { lo: 2700, hi: u16::MAX }));
    assert_eq!(parse_u16_range("2700"), Err(RangeError::NoColon));
    assert_eq!(parse_u16_range("a:b"), Err(RangeError::BadNumber));
    assert_eq!(split_range("a:b:c"), Some(("a".to_string(), "b:c".to_string())));
    assert_eq!(key_range(None, Some(key(5.0))).hi, key(5.0));
    assert_eq!(key_range(Some(key(5.0)), None).hi, GREATEST_KEY);
    assert_eq!(GREATEST_KEY, key(f32::MAX));
}

#[test]
fn corpus_roots_have_an_order() {
    let a = Some("a".to_string());
    let b = Some(" b ".to_string());
    let blank = Some("  ".to_string());
    assert_eq!(resolve_corpus_root(&a, &b, &b), a);
    assert_eq!(resolve_corpus_root(&None, &blank, &a), a);
    assert_eq!(resolve_corpus_root(&None, &None, &None), None);
    assert_eq!(clean_setting(&blank), None);
    assert_eq!(path_identity("a/b.gldf"), path_identity("a/b.gldf"));
    assert_ne!(path_identity("a/b.gldf"), path_identity("a/c.gldf"));
    let list = vec!["b".to_string(), "a".to_string(), "B".to_string()];
    assert_eq!(join_commas(&sort_texts(&list)), "B, a, b");
}

// ---------------------------------------------------------------------
// Query strings
// ---------------------------------------------------------------------

#[test]
fn queries_read_back() {
    let pairs = vec![
        ("text".to_string(), "a b&c=d\u{e9}%".to_string()),
        ("ip".to_string(), "IP65".to_string()),
    ];
    let q = encode_filter(&pairs);
    assert_eq!(q, "?text=a%20b%26c%3Dd%C3%A9%25&ip=IP65");
    assert_eq!(parse_query_string(&q), pairs);
    assert_eq!(encode_filter(&vec![]), "");
    assert_eq!(parse_query_string("?a=%FF&b=1&&c"), parse_query_string("b=1&c"));
}

// ---------------------------------------------------------------------
// Products
// ---------------------------------------------------------------------

fn file(id: &str, content_type: &str, name: &str) -> FileEntry {
    FileEntry {
        id: id.to_string(),
        content_type: content_type.to_string(),
        type_attr: "localFileName".to_string(),
        file_name: name.to_string(),
    }
}

fn loc(lang: &str, value: &str) -> LocaleEntry {
    LocaleEntry { language: lang.to_string(), value: value.to_string() }
}

fn plain_variant(id: &str) -> ProductVariant {
    ProductVariant {
        id: id.to_string(),
        name: vec![loc("en", "Lamp")],
        description: vec![],
        product_number: vec![],
        tender_text: vec![],
        gtin: None,
        mountings: None,
        model_geometry: false,
        applications: vec!["Interior".to_string()],
        labels: vec!["a\"b".to_string()],
        designer: None,
        product_form: None,
        ik_rating: None,
        adjustabilities: vec![],
        protective_areas: vec![],
        weight_kg: None,
        ip_code: Some("IP65".to_string()),
        safety_class: None,
        light_distribution: None,
        has_emergency: false,
        emergency_lighting_type: None,
    }
}

fn product() -> Product {
    Product {
        header: Header {
            manufacturer: "Acme".to_string(),
            unique_gldf_id: None,
            default_language: Some("de".to_string()),
            created_with_application: "editor".to_string(),
            format_version: FormatVersion { major: 1, minor: 0, pre_release: Some(3) },
        },
        files: vec![
            file("l1", "ldc/eulumdat", "one.ldt"),
            file("i1", "image/png", "one.png"),
            file("l2", "ldc/eulumdat", "two.ldt"),
            file("g1", "geo/l3d", "a.l3d"),
        ],
        changeable_lamp_types: vec![],
        fixed_lamp_types: vec![],
        control_gear_interfaces: vec![],
        name: vec![loc("fr", "Lampe")],
        description: vec![],
        tender_text: vec![],
        product_number: vec![],
        variants: vec![plain_variant("v1"), plain_variant("v2")],
    }
}

#[test]
fn variants_find_their_files() {
    let p = product();
    assert_eq!(read_first_ldt(&p), Some("l1".to_string()));
    assert_eq!(read_ldt_for_variant(&p, Some(1)), Some("l2".to_string()));
    assert_eq!(read_ldt_for_variant(&p, Some(5)), Some("l1".to_string()));
    assert_eq!(read_image_for_variant(&p, Some(1)).unwrap().entry_path, "image/one.png");
    assert_eq!(read_product_image(&p).unwrap().content_type, "image/png");
    let mut bare = product();
    bare.files = vec![];
    assert_eq!(read_first_ldt(&bare), None);
    assert!(read_product_image(&bare).is_none());
}

#[test]
fn reports_list_everything_once() {
    let p = product();
    let r = report(&p, "a.gldf".to_string());
    assert_eq!(r.files.photometric.len(), 2);
    assert_eq!(r.files.images.len(), 1);
    assert_eq!(r.files.geometries.len(), 1);
    assert_eq!(r.files.other.len(), 0);
    assert_eq!(r.variants.len(), 2);
    assert!(r.locales.contains(&"fr".to_string()));
    assert_eq!(file_kind("ldc/ies"), FileKind::Photometric);
    assert_eq!(file_kind("unheard/of"), FileKind::Other);
    let lines = print_report(&r);
    assert_eq!(lines[0], "FILE  a.gldf");
    assert_eq!(lines[6], "  format_version:           1.0.0-rc.3");
    assert!(lines.contains(&"  unique_gldf_id:           (absent)".to_string()));
    assert!(lines.contains(&"     labels:                  [\"a\\\"b\"]".to_string()), "{lines:?}");
    assert!(lines
        .iter()
        .any(|l| l.starts_with("     electrical: ip=Some(\"IP65\") safety_class=None")));
}

#[test]
fn index_answers_by_its_own_documents() {
    let idx = index();
    assert_eq!(idx.len(), 3);
    assert!(!idx.is_empty());
    let hit = idx.search(&Filter::default(), Pagination::default()).hits[0];
    assert!(idx.doc(&hit.doc).is_some());
    let mut f = Filter::default();
    f.text = Some("alpha".to_string());
    assert_eq!(idx.search(&f, Pagination::default()).total, 2);
}

#[test]
fn folding_joins_families() {
    let mut a = doc(1, "Acme", "Alpha");
    a.source = SourceRef::Path("one.gldf".to_string());
    a.source_paths = vec![SourceRef::Path("one.gldf".to_string())];
    let b = doc(2, "Acme", "Alpha");
    let (idx, stats) = InMemoryIndex::from_docs_folded(vec![a, b, doc(3, "Beta", "Bravo")]);
    assert_eq!(stats.input_docs, 3);
    assert_eq!(stats.output_docs, 2);
    assert_eq!(stats.output_variants, 6);
    assert_eq!(idx.len(), 2);
    assert_eq!(idx.doc(&DocId([1; 32])).unwrap().variants.len(), 4);
    assert_eq!(
        idx.doc(&DocId([2; 32])).unwrap().id,
        idx.doc(&DocId([1; 32])).unwrap().id
    );
}
