use gldf_search::api::{ProductImage, VariantPayloadSlim};
use gldf_search::articles::ArticleSuggestion;
use gldf_search::chips::{
    collect_chips, fmt_range_f32, remove_chip, shown_chips, ChipKind, Ends, RangeTexts,
};
use gldf_search::doc::{DocId, MountingPlace, MountingType};
use gldf_search::facets::{F32Bounds, FacetCounts, FacetField, FacetValueCount, U16Bounds, U32Bounds};
use gldf_search::filter::{Filter, KeyRange, U16Range, U32Range};
use gldf_search::glyphs::{glyph_entry, lvk_glyph};
use gldf_search::hits::{Pagination, SearchHit, SearchResult};
use gldf_search::ids::IdList;
use gldf_search::keys::key_of_bits;
use gldf_search::paging::{
    article_count_line, article_notice, tagline, variant_refs, HitList, PAGE_SIZE,
};
use gldf_search::panel::{
    apply_facet_suggestion, facet_fields, facet_kind_label, facet_panel, is_selected, on_toggle,
};
use gldf_search::rows::{description_label, row_badges, BadgeKind, Pane, PolarView};
use gldf_search::sliders::{
    badge, badge_of_numbers, build_range_f32, build_range_u16, edit_cri_min, edit_max_f32,
    edit_max_u16, edit_max_u32, edit_min_f32, edit_min_u16, edit_min_u32, finite_or_none,
    handle_positions_f32, handle_positions_u16, handle_positions_u32, on_max_f32, on_max_u16,
    on_max_u32, on_min_f32, on_min_u16, on_min_u32, tooltip, Slide,
};
use gldf_search::suggest::FacetSuggestion;
use gldf_search::tables::{id_of, value_of, Axis};
use gldf_search::toggles::{
    mounting_place_from_str, mounting_type_from_str, toggle_id, toggle_manufacturer,
};
use gldf_search::tree::application_tree;
use gldf_search::typing::{ArticleBar, SearchBar, ARMED_SECONDS};

fn key(x: f32) -> i32 {
    key_of_bits(x.to_bits())
}

fn count(value: &str, count: u32) -> FacetValueCount {
    FacetValueCount { value: value.to_string(), count }
}

fn ends(lo: &str, hi: &str) -> Ends {
    Ends { lo: lo.to_string(), hi: hi.to_string() }
}

fn texts() -> RangeTexts {
    RangeTexts {
        flux_lm: ends("1000", "2000"),
        power_w: ends("1", "2"),
        efficacy: ends("3", "4"),
        beam_deg: ends("5", "6"),
    }
}

// ---------------------------------------------------------------------
// Panel and toggles
// ---------------------------------------------------------------------

#[test]
fn click_turns_a_choice_over_and_back() {
    let mut f = Filter::default();
    for (field, value) in [
        (FacetField::Manufacturer, "Acme"),
        (FacetField::IpCode, "IP65"),
        (FacetField::MountingPlace, "Wall"),
        (FacetField::MountingType, "Pendant"),
        (FacetField::HasPhotometry, "present"),
        (FacetField::Has3d, "missing"),
    ] {
        assert!(!is_selected(&f, field, value));
        on_toggle(&mut f, field, value);
        assert!(is_selected(&f, field, value), "{field:?} {value}");
        on_toggle(&mut f, field, value);
        assert!(!is_selected(&f, field, value));
    }
    assert!(f.manufacturer.is_none());
    assert!(f.ip_code.is_empty());
}

#[test]
fn toggling_an_id_twice_restores() {
    let mut ids = IdList::of(&[3, 5]);
    toggle_id(&mut ids, 4);
    assert_eq!(ids.to_vec(), vec![3, 5, 4]);
    toggle_id(&mut ids, 4);
    assert_eq!(ids.to_vec(), vec![3, 5]);
}

#[test]
fn last_manufacturer_leaves_no_list() {
    let mut f = Filter::default();
    toggle_manufacturer(&mut f, "Acme");
    toggle_manufacturer(&mut f, "Beta");
    assert_eq!(f.manufacturer, Some(vec!["Acme".to_string(), "Beta".to_string()]));
    toggle_manufacturer(&mut f, "Acme");
    toggle_manufacturer(&mut f, "Beta");
    assert_eq!(f.manufacturer, None);
}

#[test]
fn mounting_names_read_back() {
    assert_eq!(mounting_place_from_str("Working plane"), None);
    assert_eq!(mounting_place_from_str("WorkingPlane"), Some(MountingPlace::WorkingPlane));
    assert_eq!(mounting_type_from_str("PoleTop"), Some(MountingType::PoleTop));
    assert_eq!(mounting_type_from_str("Floating"), None);
}

#[test]
fn suggestions_are_taken_up() {
    let mut f = Filter::default();
    let s = FacetSuggestion::IpCode { value: "IP65".to_string(), count: 3 };
    assert_eq!(s.count(), 3);
    assert_eq!(s.value(), "IP65");
    apply_facet_suggestion(&mut f, &s);
    apply_facet_suggestion(&mut f, &s);
    assert_eq!(f.ip_code.to_vec(), vec![id_of(Axis::IpCode, "IP65").unwrap()]);
    let m = FacetSuggestion::Manufacturer { value: "ERCO".to_string(), count: 1 };
    apply_facet_suggestion(&mut f, &m);
    assert_eq!(f.manufacturer, Some(vec!["ERCO".to_string()]));
    assert_eq!(facet_kind_label(&m), "Manufacturer");
}

#[test]
fn panel_shows_filled_groups() {
    let counts = FacetCounts {
        manufacturer: vec![count("Acme", 2)],
        ip_code: vec![count("IP65", 1), count("IP44", 1)],
        light_distribution: vec![count("Direct", 1)],
        ..Default::default()
    };
    let mut f = Filter::default();
    on_toggle(&mut f, FacetField::IpCode, "IP44");
    let panel = facet_panel(&counts, &f, false);
    assert_eq!(panel.len(), 3);
    let ip = panel.iter().find(|g| g.field == FacetField::IpCode).unwrap();
    assert_eq!(ip.rows.len(), 2);
    assert!(!ip.rows[0].selected);
    assert!(ip.rows[1].selected);
    let light = panel.iter().find(|g| g.field == FacetField::LightDistribution).unwrap();
    assert_eq!(light.rows[0].glyph, lvk_glyph("Direct"));
    assert!(light.rows[0].glyph.is_some());
    let locked = facet_panel(&counts, &f, true);
    assert!(locked.iter().all(|g| g.field != FacetField::Manufacturer));
    assert!(facet_fields().contains(&FacetField::IpCode));
}

#[test]
fn every_distribution_has_a_drawing() {
    for i in 0..15 {
        let (name, drawing) = glyph_entry(i);
        assert_eq!(lvk_glyph(name), Some(drawing));
        assert!(id_of(Axis::LightDistribution, name).is_some());
    }
    assert_eq!(lvk_glyph("Nothing such"), None);
}

// ---------------------------------------------------------------------
// Chips
// ---------------------------------------------------------------------

#[test]
fn open_filter_shows_no_chips() {
    assert!(collect_chips(&Filter::default(), &texts()).is_empty());
}

#[test]
fn chips_name_their_demands() {
    let mut f = Filter::default();
    f.text = Some("office".to_string());
    f.manufacturer = Some(vec!["Acme".to_string()]);
    f.ip_code = IdList::of(&[id_of(Axis::IpCode, "IP65").unwrap()]);
    f.mounting_place = vec![MountingPlace::Wall];
    f.has_photometry = Some(true);
    f.flux_lm = Some(KeyRange { lo: key(1000.0), hi: key(2000.0) });
    f.cct_k = Some(U16Range { lo: 2700, hi: 4000 });
    f.cri_min = Some(90);
    f.recessed_depth_mm = Some(U32Range { lo: 10, hi: 80 });
    let chips = collect_chips(&f, &texts());
    let labels: Vec<&str> = chips.iter().map(|c| c.label.as_str()).collect();
    assert_eq!(
        labels,
        vec![
            "Text: office",
            "Manufacturer: Acme",
            "IP: IP65",
            "Mounting place: Wall",
            "Photometry: present",
            "Flux: 1000\u{2013}2000",
            "CCT: 2700\u{2013}4000 K",
            "CRI \u{2265} 90",
            "Recessed depth: 10\u{2013}80 mm",
        ]
    );
    let locked = shown_chips(&f, &texts(), true);
    assert_eq!(locked.len(), chips.len() - 1);
    for c in &chips {
        remove_chip(&mut f, c.kind, c.value.as_str());
    }
    assert!(collect_chips(&f, &texts()).is_empty());
}

#[test]
fn taking_one_chip_back_keeps_the_others() {
    let mut f = Filter::default();
    f.manufacturer = Some(vec!["Acme".to_string(), "Beta".to_string()]);
    f.cri_min = Some(80);
    remove_chip(&mut f, ChipKind::Manufacturer, "Acme");
    let labels: Vec<String> =
        collect_chips(&f, &texts()).into_iter().map(|c| c.label).collect();
    assert_eq!(labels, vec!["Manufacturer: Beta".to_string(), "CRI \u{2265} 80".to_string()]);
}

#[test]
fn taking_back_any_chip_leaves_the_rest() {
    let mut f = Filter::default();
    f.text = Some("office".to_string());
    f.manufacturer = Some(vec!["Acme".to_string(), "Beta".to_string(), "Acme".to_string()]);
    f.ip_code = IdList::of(&[
        id_of(Axis::IpCode, "IP65").unwrap(),
        id_of(Axis::IpCode, "IP20").unwrap(),
        id_of(Axis::IpCode, "IP44").unwrap(),
    ]);
    f.mounting_place = vec![MountingPlace::Wall, MountingPlace::Ceiling];
    f.mounting_type = vec![MountingType::Recessed];
    f.has_emergency_lighting = Some(true);
    f.has_3d = Some(false);
    f.cri_min = Some(90);
    let sorted = |f: &Filter| -> Vec<String> {
        let mut labels: Vec<String> =
            collect_chips(f, &texts()).into_iter().map(|c| c.label).collect();
        labels.sort();
        labels
    };
    let all = sorted(&f);
    for c in collect_chips(&f, &texts()) {
        let mut g = f.copy();
        remove_chip(&mut g, c.kind, c.value.as_str());
        let mut left = all.clone();
        let at = left.iter().position(|l| *l == c.label).unwrap();
        left.remove(at);
        assert_eq!(sorted(&g), left, "{}", c.label);
    }
}

#[test]
fn last_manufacturer_leaves_no_demand() {
    let mut f = Filter::default();
    f.manufacturer = Some(vec!["Acme".to_string()]);
    remove_chip(&mut f, ChipKind::Manufacturer, "Acme");
    assert_eq!(f.manufacturer, None);
}

#[test]
fn emergency_types_may_give_way_to_any_type() {
    let id = id_of(Axis::EmergencyLightingType, "Exit Light").unwrap();
    let mut f = Filter::default();
    f.has_emergency_lighting = Some(true);
    f.emergency_lighting_type = IdList::of(&[id]);
    remove_chip(&mut f, ChipKind::EmergencyLightingType, "(unspecified)");
    assert_eq!(f.has_emergency_lighting, Some(true));
    remove_chip(&mut f, ChipKind::EmergencyLightingType, "Exit Light");
    let labels: Vec<String> =
        collect_chips(&f, &texts()).into_iter().map(|c| c.label).collect();
    assert_eq!(labels, vec!["Emergency: (unspecified)".to_string()]);
    remove_chip(&mut f, ChipKind::EmergencyLightingType, "(unspecified)");
    assert_eq!(f.has_emergency_lighting, None);
}

#[test]
fn open_ends_are_stars() {
    let r = KeyRange { lo: key(f32::NEG_INFINITY), hi: key(20.0) };
    assert_eq!(fmt_range_f32(r, &ends("-inf", "20")), "*\u{2013}20");
    let r = KeyRange { lo: key(5.0), hi: key(f32::INFINITY) };
    assert_eq!(fmt_range_f32(r, &ends("5", "inf")), "5\u{2013}*");
}

// ---------------------------------------------------------------------
// Sliders
// ---------------------------------------------------------------------

#[test]
fn handles_cannot_cross() {
    let b = Some(U16Bounds { min: 2000, max: 6500 });
    let r = Some(U16Range { lo: 2700, hi: 4000 });
    assert_eq!(handle_positions_u16(b, r), (2700, 4000));
    assert_eq!(on_min_u16(b, r, "5000"), Slide::To(U16Range { lo: 4000, hi: 4000 }));
    assert_eq!(on_max_u16(b, r, "2500"), Slide::To(U16Range { lo: 2700, hi: 2700 }));
    assert_eq!(on_min_u16(b, r, "x"), Slide::Keep);
    assert_eq!(on_max_u16(b, Some(U16Range { lo: 2000, hi: 4000 }), "6500"), Slide::Clear);
    let d = Some(U32Bounds { min: 0, max: 100 });
    assert_eq!(handle_positions_u32(d, None), (0, 100));
    assert_eq!(on_min_u32(d, None, "40"), Slide::To(U32Range { lo: 40, hi: 100 }));
    assert_eq!(on_max_u32(d, None, "40"), Slide::To(U32Range { lo: 0, hi: 40 }));
}

#[test]
fn numbers_can_be_typed() {
    assert_eq!(build_range_u16(None, None), None);
    let only_low = edit_min_u16(None, "3000").unwrap();
    assert_eq!(only_low.lo, 3000);
    let both = edit_max_u16(Some(only_low), "4000").unwrap();
    assert_eq!(both, U16Range { lo: 3000, hi: 4000 });
    assert_eq!(edit_min_u16(Some(both), "").unwrap().hi, 4000);
    assert_eq!(edit_min_u32(None, "12").unwrap().lo, 12);
    assert_eq!(edit_max_u32(None, "12"), Some(U32Range { lo: 0, hi: 12 }));
    assert_eq!(edit_cri_min("90"), Some(90));
    assert_eq!(edit_cri_min(""), None);
    assert_eq!(edit_cri_min("300"), None);
}

#[test]
fn measurements_slide_too() {
    let b = Some(F32Bounds { min: key(10.0), max: key(50.0) });
    assert_eq!(handle_positions_f32(b, None), (key(10.0), key(50.0)));
    let r = Some(KeyRange { lo: key(20.0), hi: key(40.0) });
    let to = |lo: f32, hi: f32| Slide::To(KeyRange { lo: key(lo), hi: key(hi) });
    assert_eq!(on_min_f32(b, r, Some(key(45.0))), to(40.0, 40.0));
    assert_eq!(on_max_f32(b, r, Some(key(5.0))), to(20.0, 20.0));
    assert_eq!(on_min_f32(b, r, Some(key(25.5))), to(25.5, 40.0));
    assert_eq!(on_min_f32(b, r, Some(key(20.0))), Slide::Keep);
    assert_eq!(on_min_f32(b, r, None), Slide::Keep);
    let low = Some(KeyRange { lo: key(10.0), hi: key(40.0) });
    assert_eq!(on_max_f32(b, low, Some(key(50.0))), Slide::Clear);
    assert_eq!(finite_or_none(key(f32::INFINITY)), None);
    assert_eq!(finite_or_none(key(2.0)), Some(key(2.0)));
    assert_eq!(build_range_f32(None, None), None);
    let r = edit_min_f32(None, Some(key(7.0))).unwrap();
    assert_eq!(r.lo, key(7.0));
    assert_eq!(r.hi, key(f32::INFINITY));
    let both = edit_max_f32(Some(r), Some(key(9.0))).unwrap();
    assert_eq!(both, KeyRange { lo: key(7.0), hi: key(9.0) });
    assert_eq!(edit_max_f32(Some(r), None), Some(r));
}

#[test]
fn badges_tell_the_bounds() {
    assert_eq!(badge(true, "1", "2"), "1 \u{2013} 2");
    assert_eq!(badge_of_numbers(true, 10, 20), "10 \u{2013} 20");
    assert_eq!(badge(false, "1", "2"), badge_of_numbers(false, 3, 4));
    assert_eq!(tooltip(true), None);
    assert!(tooltip(false).is_some());
}

// ---------------------------------------------------------------------
// Rows and panes
// ---------------------------------------------------------------------

#[test]
fn badges_come_in_order() {
    let p = VariantPayloadSlim {
        doc_id_hex: String::new(),
        variant_index: 0,
        manufacturer: String::new(),
        product: String::new(),
        variant_name: String::new(),
        sku: None,
        viewer_name: None,
        phot: None,
        ip_code: Some("IP65".to_string()),
        lamp_type: None,
        control_gear_interfaces: vec!["DALI".to_string()],
        applications: vec!["Interior: Office: Office Desks".to_string()],
        mounting: Some("Ceiling / Recessed".to_string()),
        recessed_depth_mm: Some(90),
        has_3d: true,
        has_emergency_lighting: true,
        has_photometry: false,
        description_snippet: None,
        description_truncated: false,
    };
    let got: Vec<(BadgeKind, String)> =
        row_badges(&p).into_iter().map(|b| (b.kind, b.text)).collect();
    assert_eq!(
        got,
        vec![
            (BadgeKind::Ip, "IP65".to_string()),
            (BadgeKind::ControlGear, "DALI".to_string()),
            (BadgeKind::Mounting, "Ceiling / Recessed".to_string()),
            (BadgeKind::Depth, "90 mm".to_string()),
            (BadgeKind::Model, "3D".to_string()),
            (BadgeKind::Emergency, "emergency".to_string()),
            (BadgeKind::Application, "Office Desks".to_string()),
        ]
    );
    assert_ne!(description_label(true), description_label(false));
}

#[test]
fn pane_waits_and_shows() {
    let mut p = Pane::closed();
    assert_eq!(p.polar_view(), PolarView::Nothing);
    assert!(p.toggle());
    assert_eq!(p.polar_view(), PolarView::Loading);
    p.polar_arrived(Some("<svg/>".to_string()));
    assert_eq!(p.polar_view(), PolarView::Drawing);
    p.polar_arrived(None);
    assert_eq!(p.polar_view(), PolarView::NoData);
    p.image_arrived(Some(ProductImage { mime: "image/png".to_string(), data_base64: String::new() }));
    assert!(!p.image_loading);
    assert_eq!(p.button_label(), "\u{2191} Hide polar");
    p.fire(Some(2));
    assert_eq!(p.variant_label(5), Some("Variant 3 of 5".to_string()));
    assert!(!p.toggle());
    assert_eq!(p.polar_view(), PolarView::Nothing);
    assert!(p.toggle());
    assert_eq!(p.variant, Some(2));
}

// ---------------------------------------------------------------------
// Paging
// ---------------------------------------------------------------------

fn page(n: usize, total: u32) -> SearchResult {
    SearchResult { hits: vec![SearchHit { doc: DocId([7; 32]), variant: 1 }; n], total }
}

#[test]
fn pages_are_loaded_in_order() {
    let mut l = HitList::new();
    assert_eq!(l.count_line(), "Searching\u{2026}");
    let q = l.load_next_page().unwrap();
    assert_eq!(q.page, Pagination { offset: 0, limit: PAGE_SIZE });
    assert!(l.load_next_page().is_none());
    l.page_arrived(q.generation, Ok(page(50, 60)));
    assert_eq!(l.count_line(), "50 of 60 matches");
    assert!(l.offers_more());
    let q = l.load_next_page().unwrap();
    assert_eq!(q.page.offset, 50);
    assert_eq!(l.more_label(), "Loading\u{2026}");
    l.page_arrived(q.generation, Ok(page(10, 60)));
    assert!(!l.offers_more());
    assert!(l.load_next_page().is_none());
}

#[test]
fn stale_pages_are_dropped() {
    let mut l = HitList::new();
    let old = l.load_next_page().unwrap();
    let new = l.filter_changed();
    l.page_arrived(old.generation, Ok(page(3, 3)));
    assert_eq!(l.total, None);
    l.page_arrived(new.generation, Err("offline".to_string()));
    assert_eq!(l.error, Some("offline".to_string()));
}

#[test]
fn notices_are_worded() {
    assert_eq!(article_count_line(0), "No matching article.");
    assert_eq!(article_count_line(1), "1 match");
    assert_eq!(article_count_line(2), "2 matches");
    assert!(article_notice(&Some("X1".to_string())).contains("X1"));
    assert!(tagline(&Some("ERCO".to_string())).contains("ERCO"));
    let refs = variant_refs(&page(1, 1).hits);
    assert_eq!(refs[0].doc_id, "07".repeat(32));
    assert_eq!(refs[0].variant, 1);
}

// ---------------------------------------------------------------------
// Typing
// ---------------------------------------------------------------------

#[test]
fn article_bar_asks_from_three_characters_on() {
    let mut b = ArticleBar::new();
    assert_eq!(b.on_input("A-1".to_string()), None);
    let g = b.on_input("A-12".to_string()).unwrap();
    assert!(b.is_current(g));
    let s = ArticleSuggestion {
        article: "A-123".to_string(),
        manufacturer: "Acme".to_string(),
        product: "P".to_string(),
    };
    let late = b.on_input("A-123".to_string()).unwrap();
    b.on_answer(g, None);
    assert!(!b.shows_suggestions());
    b.on_answer(late, Some(vec![s]));
    assert!(b.shows_suggestions());
    b.close();
    assert!(!b.shows_suggestions());
    b.on_focus();
    assert!(b.shows_suggestions());
    b.pick("A-123".to_string());
    assert_eq!(b.article, Some("A-123".to_string()));
    b.on_input("  ".to_string());
    b.submit();
    assert_eq!(b.article, None);
}

#[test]
fn search_bar_is_armed_for_its_time() {
    let mut b = SearchBar::new();
    let mut f = Filter::default();
    b.on_input(" office ".to_string());
    b.on_enter(&mut f);
    assert_eq!(f.text, None);
    b.on_switch(&mut f, true);
    b.on_enter(&mut f);
    assert_eq!(f.text, Some("office".to_string()));
    for _ in 1..ARMED_SECONDS {
        assert!(b.on_second());
    }
    assert!(b.armed);
    assert!(!b.on_second());
    assert!(!b.armed);
    b.on_switch(&mut f, false);
    assert_eq!(f.text, None);
}

#[test]
fn search_bar_picks_and_resets() {
    let mut b = SearchBar::new();
    let mut f = Filter::default();
    assert_eq!(b.on_input(" a ".to_string()), None);
    let g = b.on_input("ip".to_string()).unwrap();
    let s = FacetSuggestion::IpCode { value: "IP65".to_string(), count: 1 };
    b.on_answer(g, Some(vec![s.copy()]));
    assert!(b.shows_suggestions());
    b.pick(&mut f, &s);
    assert_eq!(b.draft, "");
    assert_eq!(f.ip_code.to_vec().len(), 1);
    b.reset(&mut f);
    assert!(f.ip_code.is_empty());
    assert_ne!(b.placeholder(), "");
}

// ---------------------------------------------------------------------
// Applications
// ---------------------------------------------------------------------

#[test]
fn tree_groups_and_sums() {
    let values: Vec<FacetValueCount> =
        (0..6u8).map(|i| count(value_of(Axis::Application, i).unwrap(), 2)).collect();
    let mut f = Filter::default();
    f.applications = IdList::of(&[3]);
    let t = application_tree(&values, &f);
    assert_eq!(t.rows, 6);
    let total: u32 = t.tops.iter().map(|n| n.total).sum();
    assert_eq!(total, 12);
    for top in &t.tops {
        assert_eq!(top.total, top.mids.iter().map(|m| m.total).sum::<u32>());
        for mid in &top.mids {
            assert_eq!(mid.total, mid.leaves.iter().map(|l| l.count).sum::<u32>());
            for leaf in &mid.leaves {
                assert_eq!(leaf.selected, leaf.id == 3);
                assert_eq!(value_of(Axis::Application, leaf.id), Some(leaf.value.as_str()));
            }
        }
    }
    let unknown = application_tree(&vec![count("Nowhere", 5)], &f);
    assert_eq!(unknown.rows, 0);
}
