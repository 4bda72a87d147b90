use gldf_search::manufacturer::{canonical_key, normalise, suffix_canonical_form};

#[test]
fn punctuation_acronym_collapses() {
    assert_eq!(canonical_key("A.L.S."), "als");
    assert_eq!(canonical_key("a.l.s"), "als");
    assert_eq!(canonical_key("A L S"), "als");
    assert_eq!(canonical_key("als"), "als");
}

#[test]
fn legal_suffix_strips() {
    assert_eq!(canonical_key("Lena Lighting S.A."), "lena lighting");
    assert_eq!(canonical_key("Lena Lighting"), "lena lighting");
    assert_eq!(canonical_key("Acme GmbH"), "acme");
    assert_eq!(canonical_key("Foo Bar AG"), "foo bar");
    assert_eq!(canonical_key("Bar Ltd."), "bar");
}

#[test]
fn case_is_collapsed() {
    assert_eq!(canonical_key("RUCO LICHT"), "ruco licht");
    assert_eq!(canonical_key("Ruco Licht"), "ruco licht");
    assert_eq!(canonical_key("RUCO LiChT"), "ruco licht");
}

#[test]
fn whitespace_is_collapsed() {
    assert_eq!(
        canonical_key("  Performance   in    Lighting  "),
        "performance in lighting"
    );
}

#[test]
fn empty_input_yields_empty_key() {
    assert_eq!(canonical_key(""), "");
    assert_eq!(canonical_key("   "), "");
}

#[test]
fn corpus_sample_round_trip() {
    for (raw, expected) in [
        ("A.L.S.", "als"),
        ("BEGA", "bega"),
        ("Lena Lighting S.A.", "lena lighting"),
        ("Performance in Lighting", "performance in lighting"),
        ("Philips", "philips"),
        ("Prolicht", "prolicht"),
        ("RUCO LICHT", "ruco licht"),
        ("RZB", "rzb"),
    ] {
        assert_eq!(canonical_key(raw), expected, "for raw = {raw:?}");
    }
}

#[test]
fn display_preserves_casing() {
    let m = normalise("  RUCO LICHT  ");
    assert_eq!(m.display, "RUCO LICHT");
    assert_eq!(m.key, "ruco licht");
}

#[test]
fn canonical_key_of_a_key_is_the_key() {
    for raw in ["Acme GmbH", "A.L.S.", "Foo Bar AG", "nobil\u{e9}"] {
        let key = canonical_key(raw);
        assert_eq!(canonical_key(&key), key);
    }
}

#[test]
fn suffix_form_blanks_points() {
    assert_eq!(suffix_canonical_form("S.A."), "s a");
    assert_eq!(suffix_canonical_form("GmbH"), "gmbh");
}

#[test]
fn legal_forms_leave_the_key() {
    for name in ["Acme", "Lena Lighting", "A.L.S.", "Foo Bar AG", "", "Lumi\u{e8}re"] {
        for form in ["GmbH", "gmbh", "G.M.B.H.", "S.A.", "SA", "Ltd.", "LIMITED", "Inc"] {
            assert_eq!(canonical_key(&format!("{name} {form}")), canonical_key(name), "{name} {form}");
        }
    }
}

#[test]
fn separators_leave_the_key() {
    assert_eq!(canonical_key("Ruco - Licht"), canonical_key("Ruco Licht"));
    assert_eq!(canonical_key("Ruco_/_Licht"), canonical_key("Ruco Licht"));
    assert_eq!(canonical_key("\t Ruco Licht \u{2003}"), canonical_key("Ruco Licht"));
}

#[test]
fn normalised_names_have_the_key_of_the_raw_text() {
    for raw in ["  Acme GmbH ", "A.L.S.", "\u{2003}RUCO Licht\n", "   "] {
        let n = normalise(raw);
        assert_eq!(n.key, canonical_key(raw));
        assert_eq!(n.display, raw.trim());
    }
    assert_eq!(normalise(" \t ").display, "");
    assert_eq!(normalise(" \t ").key, "");
}
