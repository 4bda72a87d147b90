use gldf_search::doc::{
    DocId, FileMeta, Locale, LuminaireDoc, MountingPlace, MountingType, PhotometricSymmetryHint,
    PhotometryStats, SourceRef, VariantDoc,
};
use gldf_search::fold::{family_doc_id, fold_docs};
use gldf_search::ids::IdList;
use gldf_search::keys::key_of_bits;

fn key(x: f32) -> i32 {
    key_of_bits(x.to_bits())
}

fn mk_variant(id: u16, name: &str) -> VariantDoc {
    VariantDoc {
        id,
        name: String::from(name),
        photometry: Some(PhotometryStats {
            flux_lm: Some(key(2000.0)),
            power_w: Some(key(20.0)),
            efficacy_lm_w: Some(key(100.0)),
            cct_k: Some(3000),
            cri_ra: Some(80),
            r9: None,
            beam_deg: Some(key(60.0)),
            field_deg: None,
            ulor: None,
            dlor: None,
            symmetry: PhotometricSymmetryHint::Unknown,
            light_distribution: None,
        }),
        mounting_place: MountingPlace::Ceiling,
        mounting_type: MountingType::SurfaceMounted,
        recessed_depth_mm: None,
        has_3d: false,
        lamp_type: None,
        control_gear_interfaces: IdList::of(&[]),
        has_emergency_lighting: false,
        emergency_lighting_type: None,
        emitter_count: 1,
        source_index: 0,
    }
}

fn mk_doc(id_seed: u8, mfr: &str, product: &str, source_name: &str) -> LuminaireDoc {
    let source = SourceRef::Path(String::from(source_name));
    LuminaireDoc {
        id: DocId([id_seed; 32]),
        source: source.copy(),
        source_paths: vec![source],
        manufacturer: String::from(mfr),
        product: String::from(product),
        gtin: None,
        product_code: None,
        descriptions: vec![],
        keywords: vec![],
        applications: IdList::of(&[]),
        labels: IdList::of(&[]),
        adjustability: IdList::of(&[]),
        ip_code: None,
        safety_class: None,
        ik_rating: None,
        product_form: None,
        variants: vec![mk_variant(0, "v")],
        file_meta: FileMeta {
            size_bytes: 1000,
            mtime_epoch_s: None,
            format_version: None,
        },
    }
}

#[test]
fn single_doc_passes_through() {
    let docs = vec![mk_doc(1, "ERCO", "Compar", "erco/compar/1.gldf")];
    let (folded, aliases, stats) = fold_docs(docs);
    assert_eq!(folded.len(), 1);
    assert_eq!(stats.input_docs, 1);
    assert_eq!(stats.output_docs, 1);
    assert_eq!(aliases.get(&DocId([1; 32])), Some(DocId([1; 32])));
    assert_eq!(folded[0].source_paths.len(), 1);
}

#[test]
fn two_docs_same_family_fold_into_one() {
    let docs = vec![
        mk_doc(1, "ERCO", "Compar", "erco/compar/1.gldf"),
        mk_doc(2, "ERCO", "Compar", "erco/compar/2.gldf"),
    ];
    let (folded, aliases, stats) = fold_docs(docs);
    assert_eq!(folded.len(), 1);
    assert_eq!(stats.output_variants, 2, "both variants survive");
    assert_eq!(folded[0].variants.len(), 2);
    assert_eq!(folded[0].source_paths.len(), 2);
    let indices: Vec<u16> = folded[0].variants.iter().map(|v| v.source_index).collect();
    assert!(indices.contains(&0));
    assert!(indices.contains(&1));
    let canonical = folded[0].id;
    assert_eq!(aliases.get(&DocId([1; 32])), Some(canonical));
    assert_eq!(aliases.get(&DocId([2; 32])), Some(canonical));
}

#[test]
fn fold_key_is_case_sensitive() {
    let docs = vec![
        mk_doc(1, "ERCO", "Compar", "a.gldf"),
        mk_doc(2, "erco", "Compar", "b.gldf"),
    ];
    let (folded, _, _) = fold_docs(docs);
    assert_eq!(folded.len(), 2, "different case = different family");
}

#[test]
fn different_products_dont_fold() {
    let docs = vec![
        mk_doc(1, "ERCO", "Compar", "a.gldf"),
        mk_doc(2, "ERCO", "Optec", "b.gldf"),
    ];
    let (folded, _, _) = fold_docs(docs);
    assert_eq!(folded.len(), 2);
}

#[test]
fn family_doc_id_is_deterministic() {
    let a = family_doc_id("ERCO", "Compar");
    let b = family_doc_id("ERCO", "Compar");
    assert_eq!(a, b);
    let c = family_doc_id("ERCO", "Optec");
    assert_ne!(a, c);
}

#[test]
fn folded_doc_applications_are_union() {
    let mut a = mk_doc(1, "ERCO", "Compar", "a.gldf");
    let mut b = mk_doc(2, "ERCO", "Compar", "b.gldf");
    a.applications = IdList::of(&[10, 20]);
    b.applications = IdList::of(&[20, 30]);
    let (folded, _, _) = fold_docs(vec![a, b]);
    assert_eq!(folded.len(), 1);
    let mut apps = folded[0].applications.to_vec();
    apps.sort();
    assert_eq!(apps, vec![10, 20, 30]);
}

#[test]
fn descriptions_dedupe_across_sources() {
    let mut a = mk_doc(1, "ERCO", "Compar", "a.gldf");
    let mut b = mk_doc(2, "ERCO", "Compar", "b.gldf");
    let de = Locale::from_str("de").unwrap();
    a.descriptions = vec![(de, "Same text".to_string())];
    b.descriptions = vec![(de, "Same text".to_string())];
    let (folded, _, _) = fold_docs(vec![a, b]);
    assert_eq!(folded[0].descriptions.len(), 1);
}

#[test]
fn folding_again_keeps_the_documents() {
    let docs = vec![
        mk_doc(2, "ERCO", "Compar", "2.gldf"),
        mk_doc(1, "ERCO", "Compar", "1.gldf"),
        mk_doc(3, "ERCO", "Optec", "3.gldf"),
    ];
    let (once, _, _) = fold_docs(docs);
    let ids: Vec<DocId> = once.iter().map(|d| d.id).collect();
    let sizes: Vec<usize> = once.iter().map(|d| d.variants.len()).collect();
    let (twice, aliases, stats) = fold_docs(once);
    assert_eq!(twice.iter().map(|d| d.id).collect::<Vec<DocId>>(), ids);
    assert_eq!(twice.iter().map(|d| d.variants.len()).collect::<Vec<usize>>(), sizes);
    assert_eq!(stats.input_docs, stats.output_docs);
    assert_eq!(aliases.len(), 2);
}

#[test]
fn folded_variants_lead_to_their_source() {
    let mut a = mk_doc(2, "ERCO", "Compar", "2.gldf");
    a.variants.push(mk_variant(7, "w"));
    let b = mk_doc(1, "ERCO", "Compar", "1.gldf");
    let (folded, _, _) = fold_docs(vec![a, b]);
    let d = &folded[0];
    // The documents stand in the order of their identities.
    assert!(matches!(&d.source, SourceRef::Path(p) if p == "1.gldf"));
    let sources: Vec<u16> = d.variants.iter().map(|v| v.source_index).collect();
    assert_eq!(sources, vec![0, 1, 1]);
    let numbers: Vec<u16> = d.variants.iter().map(|v| v.id).collect();
    assert_eq!(numbers, vec![0, 1, 2]);
    assert!(matches!(&d.source_paths[1], SourceRef::Path(p) if p == "2.gldf"));
    assert_eq!(d.file_meta.size_bytes, 2000);
}
