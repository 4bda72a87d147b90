use gldf_search::doc::Locale;
use gldf_search::locale::{gather_descriptions, push_from_locale_foo, text_for};
use gldf_search::product::{
    first_locale_value, format_version_string, FormatVersion, Header, LocaleEntry, Product,
};

fn loc(lang: &str, value: &str) -> LocaleEntry {
    LocaleEntry { language: lang.to_string(), value: value.to_string() }
}

#[test]
fn skips_blank_values() {
    let mut out = Vec::new();
    let bag = vec![loc("en", ""), loc("en", "   "), loc("en", "real")];
    push_from_locale_foo(&bag, &mut out);
    let en = Locale::from_str("en").unwrap();
    assert_eq!(text_for(&out, en), Some("real"));
}

#[test]
fn drops_non_two_letter_locales() {
    let mut out = Vec::new();
    let bag = vec![loc("en-US", "hi"), loc("zh-Hant", "no"), loc("en", "yes")];
    push_from_locale_foo(&bag, &mut out);
    let en = Locale::from_str("en").unwrap();
    assert_eq!(text_for(&out, en), Some("yes"));
    assert_eq!(out.len(), 1);
}

#[test]
fn merges_multiple_sources_with_space() {
    let mut out = Vec::new();
    let a = vec![loc("en", "first")];
    let b = vec![loc("en", "second")];
    push_from_locale_foo(&a, &mut out);
    push_from_locale_foo(&b, &mut out);
    let en = Locale::from_str("en").unwrap();
    assert_eq!(text_for(&out, en), Some("first second"));
}

#[test]
fn locales_come_in_order() {
    let mut out = Vec::new();
    push_from_locale_foo(&vec![loc("it", "tre"), loc("de", "eins"), loc("it", "quattro")], &mut out);
    let de = Locale::from_str("de").unwrap();
    let it = Locale::from_str("it").unwrap();
    assert_eq!(out, vec![(de, "eins".to_string()), (it, "tre quattro".to_string())]);
    assert_eq!(text_for(&out, Locale::from_str("fr").unwrap()), None);
}

#[test]
fn locale_is_two_letters() {
    assert!(Locale::from_str("de").is_some());
    assert!(Locale::from_str("d").is_none());
    assert!(Locale::from_str("deu").is_none());
    assert!(Locale::from_str("d1").is_none());
}

#[test]
fn english_names_come_first() {
    assert_eq!(
        first_locale_value(&vec![loc("de", "Leuchte"), loc("en", "Lamp")]),
        Some("Lamp".to_string())
    );
    assert_eq!(
        first_locale_value(&vec![loc("de", "Leuchte"), loc("fr", "Lampe")]),
        Some("Leuchte".to_string())
    );
    assert_eq!(first_locale_value(&vec![]), None);
}

#[test]
fn versions_are_written_out() {
    let v = FormatVersion { major: 1, minor: 0, pre_release: Some(3) };
    assert_eq!(format_version_string(v), "1.0.0-rc.3");
    let w = FormatVersion { major: 1, minor: 2, pre_release: None };
    assert_eq!(format_version_string(w), "1.2.0");
}

#[test]
fn descriptions_are_gathered_over_the_product() {
    let p = Product {
        header: Header {
            manufacturer: "Acme".to_string(),
            unique_gldf_id: None,
            default_language: None,
            created_with_application: String::new(),
            format_version: FormatVersion { major: 1, minor: 0, pre_release: None },
        },
        files: vec![],
        changeable_lamp_types: vec![],
        fixed_lamp_types: vec![],
        control_gear_interfaces: vec![],
        name: vec![loc("en", "Name")],
        description: vec![loc("en", "Text"), loc("de", "Wort")],
        tender_text: vec![loc("en", "Tender")],
        product_number: vec![],
        variants: vec![],
    };
    let got = gather_descriptions(&p);
    let en = Locale::from_str("en").unwrap();
    let de = Locale::from_str("de").unwrap();
    assert_eq!(text_for(&got, de), Some("Wort"));
    let english = text_for(&got, en).unwrap();
    assert!(english.contains("Text"));
    assert!(english.contains("Tender"));
}
