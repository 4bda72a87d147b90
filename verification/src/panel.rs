//! The facet panel: which values are shown, which are chosen, and what a
//! click does.

use crate::doc::{DocView, MountingPlace, MountingType, VariantView};
use crate::facets::{
    counts_of, doc_has_value, facet_count, id_names, ids_name, place_text, relaxed, type_text,
    variant_counts, FacetCounts, FacetField, FacetValueCount, UNSPECIFIED_EMERGENCY,
};
use crate::filter::{
    doc_matches, has_place, has_type, id_meets, ids_meet, variant_matches, Filter, FilterView,
};
use crate::glyphs::{glyph_of, lvk_glyph};
use crate::ids::IdList;
use crate::suggest::{field_of, shown, FacetSuggestion};
use crate::tables::{id_of, is_closed_list, value_id, value_text, Axis};
use crate::text::{list_has, same_text};
use crate::toggles::{
    joined, manufacturers_toggled, mounting_place_from_str, mounting_type_from_str, place_named,
    place_names_round_trip, toggle_id, toggle_manufacturer, toggle_place, toggle_type, toggled,
    toggling_flips, type_named, type_names_round_trip,
};
use vstd::prelude::*;

verus! {

// ---------------------------------------------------------------------
// Fields and lists
// ---------------------------------------------------------------------

/// The closed list that a field is about.
pub open spec fn axis_of(field: FacetField) -> Option<Axis> {
    match field {
        FacetField::Applications => Some(Axis::Application),
        FacetField::Labels => Some(Axis::Label),
        FacetField::IpCode => Some(Axis::IpCode),
        FacetField::SafetyClass => Some(Axis::SafetyClass),
        FacetField::IkRating => Some(Axis::IkRating),
        FacetField::ProductForm => Some(Axis::ProductForm),
        FacetField::Adjustability => Some(Axis::Adjustability),
        FacetField::LightDistribution => Some(Axis::LightDistribution),
        FacetField::LampType => Some(Axis::LampType),
        FacetField::ControlGearInterface => Some(Axis::ControlGearInterface),
        FacetField::EmergencyLightingType => Some(Axis::EmergencyLightingType),
        _ => None,
    }
}

/// The ids that a filter demands of a closed list.
pub open spec fn ids_in(f: FilterView, axis: Axis) -> Seq<u8> {
    match axis {
        Axis::Application => f.applications,
        Axis::Label => f.labels,
        Axis::IpCode => f.ip_code,
        Axis::SafetyClass => f.safety_class,
        Axis::IkRating => f.ik_rating,
        Axis::ProductForm => f.product_form,
        Axis::Adjustability => f.adjustability,
        Axis::LightDistribution => f.light_distribution,
        Axis::LampType => f.lamp_type,
        Axis::ControlGearInterface => f.control_gear_interfaces,
        Axis::EmergencyLightingType => f.emergency_lighting_type,
    }
}

/// A filter with other ids of a closed list.
pub open spec fn with_ids(f: FilterView, axis: Axis, ids: Seq<u8>) -> FilterView {
    match axis {
        Axis::Application => FilterView { applications: ids, ..f },
        Axis::Label => FilterView { labels: ids, ..f },
        Axis::IpCode => FilterView { ip_code: ids, ..f },
        Axis::SafetyClass => FilterView { safety_class: ids, ..f },
        Axis::IkRating => FilterView { ik_rating: ids, ..f },
        Axis::ProductForm => FilterView { product_form: ids, ..f },
        Axis::Adjustability => FilterView { adjustability: ids, ..f },
        Axis::LightDistribution => FilterView { light_distribution: ids, ..f },
        Axis::LampType => FilterView { lamp_type: ids, ..f },
        Axis::ControlGearInterface => FilterView { control_gear_interfaces: ids, ..f },
        Axis::EmergencyLightingType => FilterView { emergency_lighting_type: ids, ..f },
    }
}

/// The closed list that a field is about.
pub fn field_axis(field: FacetField) -> (r: Option<Axis>)
    ensures
        r == axis_of(field),
{
    match field {
        FacetField::Applications => Some(Axis::Application),
        FacetField::Labels => Some(Axis::Label),
        FacetField::IpCode => Some(Axis::IpCode),
        FacetField::SafetyClass => Some(Axis::SafetyClass),
        FacetField::IkRating => Some(Axis::IkRating),
        FacetField::ProductForm => Some(Axis::ProductForm),
        FacetField::Adjustability => Some(Axis::Adjustability),
        FacetField::LightDistribution => Some(Axis::LightDistribution),
        FacetField::LampType => Some(Axis::LampType),
        FacetField::ControlGearInterface => Some(Axis::ControlGearInterface),
        FacetField::EmergencyLightingType => Some(Axis::EmergencyLightingType),
        _ => None,
    }
}

/// The list of a filter.
pub fn slot(f: &Filter, axis: Axis) -> (r: &IdList)
    ensures
        r@ == ids_in(f@, axis),
{
    match axis {
        Axis::Application => &f.applications,
        Axis::Label => &f.labels,
        Axis::IpCode => &f.ip_code,
        Axis::SafetyClass => &f.safety_class,
        Axis::IkRating => &f.ik_rating,
        Axis::ProductForm => &f.product_form,
        Axis::Adjustability => &f.adjustability,
        Axis::LightDistribution => &f.light_distribution,
        Axis::LampType => &f.lamp_type,
        Axis::ControlGearInterface => &f.control_gear_interfaces,
        Axis::EmergencyLightingType => &f.emergency_lighting_type,
    }
}

/// The list of a filter, to be changed.
pub fn slot_mut(f: &mut Filter, axis: Axis) -> (r: &mut IdList)
    ensures
        r@ == ids_in(old(f)@, axis),
        final(f)@ == with_ids(old(f)@, axis, final(r)@),
{
    match axis {
        Axis::Application => &mut f.applications,
        Axis::Label => &mut f.labels,
        Axis::IpCode => &mut f.ip_code,
        Axis::SafetyClass => &mut f.safety_class,
        Axis::IkRating => &mut f.ik_rating,
        Axis::ProductForm => &mut f.product_form,
        Axis::Adjustability => &mut f.adjustability,
        Axis::LightDistribution => &mut f.light_distribution,
        Axis::LampType => &mut f.lamp_type,
        Axis::ControlGearInterface => &mut f.control_gear_interfaces,
        Axis::EmergencyLightingType => &mut f.emergency_lighting_type,
    }
}

// ---------------------------------------------------------------------
// Choosing
// ---------------------------------------------------------------------

/// Whether a filter demands emergency lighting of any type.
pub open spec fn any_emergency(f: FilterView) -> bool {
    f.has_emergency_lighting == Some(true) && f.emergency_lighting_type.len() == 0
}

/// The presence that a value names.
pub open spec fn presence_named(v: Seq<char>) -> Option<bool> {
    if v == "present"@ {
        Some(true)
    } else if v == "missing"@ {
        Some(false)
    } else {
        None
    }
}

/// Whether a value of a field is chosen.
pub open spec fn chosen(f: FilterView, field: FacetField, v: Seq<char>) -> bool {
    match field {
        FacetField::Manufacturer => f.manufacturer matches Some(list) && list.contains(v),
        FacetField::MountingPlace => place_named(v) matches Some(p) && f.mounting_place.contains(
            p,
        ),
        FacetField::MountingType => type_named(v) matches Some(t) && f.mounting_type.contains(t),
        FacetField::HasPhotometry => presence_named(v) is Some && f.has_photometry
            == presence_named(v),
        FacetField::Has3d => presence_named(v) is Some && f.has_3d == presence_named(v),
        FacetField::HasEmergencyLighting => presence_named(v) is Some && f.has_emergency_lighting
            == presence_named(v),
        _ => if field == FacetField::EmergencyLightingType && v == UNSPECIFIED_EMERGENCY@ {
            any_emergency(f)
        } else {
            match axis_of(field) {
                Some(axis) => value_id(axis, v) matches Some(id) && ids_in(f, axis).contains(id),
                None => false,
            }
        },
    }
}

/// A presence after it is toggled.
pub open spec fn presence_toggled(had: Option<bool>, v: Seq<char>) -> Option<bool> {
    match presence_named(v) {
        Some(want) => if had == Some(want) {
            None
        } else {
            Some(want)
        },
        None => had,
    }
}

/// A filter after a value of a field is toggled.
pub open spec fn filter_toggled(f: FilterView, field: FacetField, v: Seq<char>) -> FilterView {
    match field {
        FacetField::Manufacturer => FilterView {
            manufacturer: manufacturers_toggled(f.manufacturer, v),
            ..f
        },
        FacetField::MountingPlace => match place_named(v) {
            Some(p) => FilterView { mounting_place: toggled(f.mounting_place, p), ..f },
            None => f,
        },
        FacetField::MountingType => match type_named(v) {
            Some(t) => FilterView { mounting_type: toggled(f.mounting_type, t), ..f },
            None => f,
        },
        FacetField::HasPhotometry => FilterView {
            has_photometry: presence_toggled(f.has_photometry, v),
            ..f
        },
        FacetField::Has3d => FilterView { has_3d: presence_toggled(f.has_3d, v), ..f },
        FacetField::HasEmergencyLighting => FilterView {
            has_emergency_lighting: presence_toggled(f.has_emergency_lighting, v),
            ..f
        },
        _ => if field == FacetField::EmergencyLightingType && v == UNSPECIFIED_EMERGENCY@ {
            if any_emergency(f) {
                FilterView { has_emergency_lighting: None, ..f }
            } else {
                FilterView {
                    has_emergency_lighting: Some(true),
                    emergency_lighting_type: Seq::empty(),
                    ..f
                }
            }
        } else {
            match axis_of(field) {
                Some(axis) => match value_id(axis, v) {
                    Some(id) => with_ids(f, axis, toggled(ids_in(f, axis), id)),
                    None => f,
                },
                None => f,
            }
        },
    }
}

/// Whether a value can be chosen in a field.
pub open spec fn choosable(field: FacetField, v: Seq<char>) -> bool {
    match field {
        FacetField::Manufacturer => true,
        FacetField::MountingPlace => place_named(v) is Some,
        FacetField::MountingType => type_named(v) is Some,
        FacetField::HasPhotometry => presence_named(v) is Some,
        FacetField::Has3d => presence_named(v) is Some,
        FacetField::HasEmergencyLighting => presence_named(v) is Some,
        _ => (field == FacetField::EmergencyLightingType && v == UNSPECIFIED_EMERGENCY@) || (
        axis_of(field) is Some && value_id(axis_of(field)->0, v) is Some),
    }
}

/// Whether no list of a filter holds a value twice.
pub open spec fn tidy(f: FilterView) -> bool {
    &&& f.manufacturer matches Some(list) ==> list.no_duplicates()
    &&& f.mounting_place.no_duplicates()
    &&& f.mounting_type.no_duplicates()
    &&& forall|axis: Axis| (#[trigger] ids_in(f, axis)).no_duplicates()
}

/// A click on a value turns its choice over: what was chosen is dropped,
/// what was not is chosen. The lists stay tidy.
pub proof fn click_turns_choice_over(f: FilterView, field: FacetField, v: Seq<char>)
    requires
        tidy(f),
        choosable(field, v),
    ensures
        chosen(filter_toggled(f, field, v), field, v) == !chosen(f, field, v),
        tidy(filter_toggled(f, field, v)),
{
    let g = filter_toggled(f, field, v);
    if field == FacetField::Manufacturer {
        match f.manufacturer {
            Some(list) => {
                toggling_flips(list, v);
                crate::toggles::place_is_exact(list, v, 0);
                if crate::toggles::place_from(list, v, 0) is Some && list.len() == 1 {
                    assert(g.manufacturer is None);
                    assert(list.contains(v));
                } else {
                    assert(g.manufacturer == Some(toggled(list, v)));
                }
            },
            None => {
                assert(seq![v][0] == v);
                assert(seq![v].contains(v));
            },
        }
    } else if field == FacetField::MountingPlace {
        toggling_flips(f.mounting_place, place_named(v)->0);
    } else if field == FacetField::MountingType {
        toggling_flips(f.mounting_type, type_named(v)->0);
    } else if axis_of(field) is Some && !(field == FacetField::EmergencyLightingType && v
        == UNSPECIFIED_EMERGENCY@) {
        let axis = axis_of(field)->0;
        let id = value_id(axis, v)->0;
        assert(ids_in(f, axis).no_duplicates());
        toggling_flips(ids_in(f, axis), id);
        assert(ids_in(g, axis) == toggled(ids_in(f, axis), id));
    }
    assert forall|axis: Axis| (#[trigger] ids_in(g, axis)).no_duplicates() by {
        assert(ids_in(f, axis).no_duplicates());
    }
}

/// Whether variants carry a field.
pub open spec fn of_variants(field: FacetField) -> bool {
    match field {
        FacetField::Manufacturer => false,
        FacetField::Applications => false,
        FacetField::Labels => false,
        FacetField::IpCode => false,
        FacetField::SafetyClass => false,
        FacetField::IkRating => false,
        FacetField::ProductForm => false,
        FacetField::Adjustability => false,
        _ => true,
    }
}

/// How many of the documents match a filter.
pub open spec fn docs_matching(docs: Seq<DocView>, f: FilterView) -> nat {
    docs.filter(|d: DocView| doc_matches(f, d)).len()
}

/// Whether a value is the bucket of emergency lighting without a type. It
/// stands for no type, so a click on it demands emergency lighting of any
/// type.
pub open spec fn is_bucket(field: FacetField, v: Seq<char>) -> bool {
    field == FacetField::EmergencyLightingType && v == UNSPECIFIED_EMERGENCY@
}

/// Whether the closed list of a field, where it has one, tells its values
/// apart.
pub open spec fn field_is_closed(field: FacetField) -> bool {
    axis_of(field) matches Some(axis) ==> is_closed_list(axis)
}

/// Whether an id stands for a value exactly if it is the value's id.
proof fn id_of_value(axis: Axis, k: u8, v: Seq<char>)
    requires
        is_closed_list(axis),
        value_id(axis, v) is Some,
    ensures
        value_text(axis, k) == Some(v) <==> k == value_id(axis, v)->0,
{
    crate::tables::ids_stand_for_values(axis, v);
    if value_text(axis, k) == Some(v) {
        crate::tables::ids_round_trip(axis, k);
    }
}

/// A list with one id is met by that id.
proof fn one_id_is_met(axis: Axis, v: Seq<char>, id: Option<u8>, ids: Seq<u8>)
    requires
        is_closed_list(axis),
        value_id(axis, v) is Some,
    ensures
        id_meets(seq![value_id(axis, v)->0], id) == id_names(axis, id, v),
        ids_meet(seq![value_id(axis, v)->0], ids) == ids_name(axis, ids, v),
{
    let one = seq![value_id(axis, v)->0];
    assert(one[0] == value_id(axis, v)->0);
    assert forall|k: u8| one.contains(k) <==> #[trigger] value_text(axis, k) == Some(v) by {
        id_of_value(axis, k, v);
    }
    if ids_meet(one, ids) {
        let i = choose|i: int| 0 <= i < ids.len() && one.contains(#[trigger] ids[i]);
        assert(value_text(axis, ids[i]) == Some(v));
    }
    if ids_name(axis, ids, v) {
        let i = choose|i: int| 0 <= i < ids.len() && value_text(axis, #[trigger] ids[i]) == Some(v);
        assert(one.contains(ids[i]));
    }
    if let Some(k) = id {
        assert(one.contains(k) <==> value_text(axis, k) == Some(v));
    }
}

/// A filter with `v` as the only choice in a field that variants carry is
/// met by the variants that meet the rest of it and have the value.
#[verifier::spinoff_prover]
proof fn choosing_picks_variants(f: FilterView, field: FacetField, v: Seq<char>, w: VariantView)
    requires
        choosable(field, v),
        !is_bucket(field, v),
        field_is_closed(field),
    ensures
        ({
            let r = relaxed(f, field);
            let g = filter_toggled(r, field, v);
            variant_matches(g, w) == if of_variants(field) {
                variant_counts(r, w, field, v)
            } else {
                variant_matches(r, w)
            }
        }),
{
    let r = relaxed(f, field);
    let g = filter_toggled(r, field, v);
    match axis_of(field) {
        Some(axis) => {
            let id = value_id(axis, v)->0;
            assert(ids_in(g, axis) =~= seq![id]);
            let distribution = match w.photometry {
                Some(p) => p.light_distribution,
                None => None,
            };
            one_id_is_met(axis, v, distribution, Seq::empty());
            one_id_is_met(axis, v, w.lamp_type, w.control_gear_interfaces);
            one_id_is_met(axis, v, w.emergency_lighting_type, Seq::empty());
        },
        None => {
            if field == FacetField::MountingPlace {
                let p = place_named(v)->0;
                assert(g.mounting_place =~= seq![p]);
                assert(g.mounting_place[0] == p);
                place_names_round_trip(w.mounting_place);
                assert(place_text(p) == v);
            }
            if field == FacetField::MountingType {
                let t = type_named(v)->0;
                assert(g.mounting_type =~= seq![t]);
                assert(g.mounting_type[0] == t);
                type_names_round_trip(w.mounting_type);
                assert(type_text(t) == v);
            }
            reveal_strlit("present");
            reveal_strlit("missing");
            assert("present"@[0] != "missing"@[0]);
        },
    }
}

/// A document matches a filter with `v` as the only choice in a field
/// exactly if it matches with the field relaxed and has the value there.
#[verifier::spinoff_prover]
pub proof fn choosing_picks_docs(f: FilterView, field: FacetField, v: Seq<char>, d: DocView)
    requires
        choosable(field, v),
        !is_bucket(field, v),
        field_is_closed(field),
        field == FacetField::Manufacturer ==> v.len() > 0,
    ensures
        doc_matches(filter_toggled(relaxed(f, field), field, v), d) == (doc_matches(
            relaxed(f, field),
            d,
        ) && doc_has_value(relaxed(f, field), d, field, v)),
{
    let r = relaxed(f, field);
    let g = filter_toggled(r, field, v);
    assert forall|i: int| 0 <= i < d.variants.len() implies ({
        let w = #[trigger] d.variants[i];
        variant_matches(g, w) == if of_variants(field) {
            variant_counts(r, w, field, v)
        } else {
            variant_matches(r, w)
        }
    }) by {
        choosing_picks_variants(f, field, v, d.variants[i]);
    }
    if field == FacetField::Manufacturer {
        let one = seq![v];
        assert(one[0] == v);
        assert(g.manufacturer == Some(one));
        assert(one.contains(d.manufacturer) <==> d.manufacturer == v);
    }
    match axis_of(field) {
        Some(axis) => {
            assert(ids_in(g, axis) =~= seq![value_id(axis, v)->0]);
            one_id_is_met(axis, v, d.ip_code, d.applications);
            one_id_is_met(axis, v, d.safety_class, d.labels);
            one_id_is_met(axis, v, d.ik_rating, d.adjustability);
            one_id_is_met(axis, v, d.product_form, Seq::empty());
        },
        None => {},
    }
}

/// The count of a value is the number of documents that would match if
/// the value were the only choice in its field.
pub proof fn choosing_gives_the_count(
    docs: Seq<DocView>,
    f: FilterView,
    field: FacetField,
    v: Seq<char>,
)
    requires
        choosable(field, v),
        !is_bucket(field, v),
        field_is_closed(field),
        field == FacetField::Manufacturer ==> v.len() > 0,
    ensures
        facet_count(docs, relaxed(f, field), field, v) == docs_matching(
            docs,
            filter_toggled(relaxed(f, field), field, v),
        ),
    decreases docs.len(),
{
    reveal(Seq::filter);
    if docs.len() > 0 {
        choosing_gives_the_count(docs.drop_last(), f, field, v);
        choosing_picks_docs(f, field, v, docs.last());
    }
}

/// Every value that is counted can be chosen.
pub proof fn counted_values_are_choosable(
    docs: Seq<DocView>,
    f: FilterView,
    field: FacetField,
    v: Seq<char>,
)
    requires
        field_is_closed(field),
        facet_count(docs, f, field, v) > 0,
    ensures
        choosable(field, v),
        field == FacetField::Manufacturer ==> v.len() > 0,
    decreases docs.len(),
{
    if facet_count(docs.drop_last(), f, field, v) > 0 {
        counted_values_are_choosable(docs.drop_last(), f, field, v);
    } else {
        let d = docs.last();
        assert(doc_has_value(f, d, field, v));
        if axis_of(field) is Some && !is_bucket(field, v) {
            let axis = axis_of(field)->0;
            let k = choose|k: u8| #[trigger] value_text(axis, k) == Some(v);
            assert(value_text(axis, k) == Some(v));
            crate::tables::ids_round_trip(axis, k);
        } else if field != FacetField::Manufacturer && axis_of(field) is None {
            let i = choose|i: int|
                0 <= i < d.variants.len() && variant_counts(f, #[trigger] d.variants[i], field, v);
            place_names_round_trip(d.variants[i].mounting_place);
            type_names_round_trip(d.variants[i].mounting_type);
        }
    }
}

/// A click changes what its own field demands, and nothing else; with the
/// field relaxed no value of it is chosen.
pub proof fn clicks_change_their_field_alone(f: FilterView, field: FacetField, v: Seq<char>)
    requires
        !is_bucket(field, v),
    ensures
        relaxed(filter_toggled(f, field, v), field) == relaxed(f, field),
        !chosen(relaxed(f, field), field, v),
{
}

/// A click leaves the choice of all other values of its field.
#[verifier::spinoff_prover]
pub proof fn clicks_leave_other_choices(
    f: FilterView,
    field: FacetField,
    v: Seq<char>,
    w: Seq<char>,
)
    requires
        tidy(f),
        choosable(field, v),
        choosable(field, w),
        v != w,
        field_is_closed(field),
        !is_bucket(field, v),
        !is_bucket(field, w),
        match field {
            FacetField::HasPhotometry => false,
            FacetField::Has3d => false,
            FacetField::HasEmergencyLighting => false,
            _ => true,
        },
    ensures
        chosen(filter_toggled(f, field, v), field, w) == chosen(f, field, w),
{
    let g = filter_toggled(f, field, v);
    if field == FacetField::Manufacturer {
        match f.manufacturer {
            Some(list) => {
                toggling_flips(list, v);
                crate::toggles::place_is_exact(list, v, 0);
                if crate::toggles::place_from(list, v, 0) is Some && list.len() == 1 {
                    assert(g.manufacturer is None);
                    if list.contains(w) {
                        let i = choose|i: int| 0 <= i < list.len() && list[i] == w;
                        assert(list[0] == v && i == 0);
                    }
                } else {
                    assert(g.manufacturer == Some(toggled(list, v)));
                }
            },
            None => {
                if seq![v].contains(w) {
                    let i = choose|i: int| 0 <= i < seq![v].len() && seq![v][i] == w;
                    assert(seq![v][i] == v);
                }
            },
        }
    } else if field == FacetField::MountingPlace {
        toggling_flips(f.mounting_place, place_named(v)->0);
        assert(place_text(place_named(v)->0) == v && place_text(place_named(w)->0) == w);
    } else if field == FacetField::MountingType {
        toggling_flips(f.mounting_type, type_named(v)->0);
        assert(type_text(type_named(v)->0) == v && type_text(type_named(w)->0) == w);
    } else if axis_of(field) is Some {
        let axis = axis_of(field)->0;
        let id = value_id(axis, v)->0;
        assert(ids_in(f, axis).no_duplicates());
        toggling_flips(ids_in(f, axis), id);
        assert(ids_in(g, axis) == toggled(ids_in(f, axis), id));
        crate::tables::ids_stand_for_values(axis, v);
        crate::tables::ids_stand_for_values(axis, w);
    }
}

/// Taking up a suggestion of a closed list adds its value, and keeps what
/// was chosen there.
pub proof fn suggestions_add_their_value(f: FilterView, s: FacetSuggestion, k: u8)
    requires
        field_of(s) != FacetField::Manufacturer,
        axis_of(field_of(s)) is Some,
        value_id(axis_of(field_of(s))->0, shown(s)) is Some,
    ensures
        ({
            let axis = axis_of(field_of(s))->0;
            let id = value_id(axis, shown(s))->0;
            ids_in(suggestion_applied(f, s), axis).contains(k) <==> ids_in(f, axis).contains(k) || k
                == id
        }),
{
    let axis = axis_of(field_of(s))->0;
    let id = value_id(axis, shown(s))->0;
    let had = ids_in(f, axis);
    let now = ids_in(suggestion_applied(f, s), axis);
    assert(now == joined(had, id));
    if !had.contains(id) {
        assert(now == had.push(id));
        assert(now[had.len() as int] == id);
        if had.contains(k) {
            let i = choose|i: int| 0 <= i < had.len() && had[i] == k;
            assert(now[i] == k);
        }
        if now.contains(k) && k != id {
            let i = choose|i: int| 0 <= i < now.len() && now[i] == k;
            assert(had[i] == k);
        }
    }
}

/// A click on the bucket of emergency lighting without a type demands
/// emergency lighting of any type: the variants that meet it are those
/// that serve emergency lighting and meet the rest.
pub proof fn bucket_demands_any_type(f: FilterView, w: VariantView)
    requires
        !any_emergency(f),
    ensures
        ({
            let field = FacetField::EmergencyLightingType;
            let g = filter_toggled(f, field, "(unspecified)"@);
            let rest = FilterView { has_emergency_lighting: None, ..relaxed(f, field) };
            variant_matches(g, w) <==> w.has_emergency_lighting && variant_matches(rest, w)
        }),
{
}

/// Taking up a suggestion changes what its own field demands, and
/// nothing else.
pub proof fn suggestions_change_their_field_alone(f: FilterView, s: FacetSuggestion)
    ensures
        relaxed(suggestion_applied(f, s), field_of(s)) == relaxed(f, field_of(s)),
        field_of(s) == FacetField::Manufacturer && f.manufacturer is None ==> suggestion_applied(
            f,
            s,
        ).manufacturer == Some(seq![shown(s)]),
{
}

/// The presence that a value names.
fn presence_of(v: &str) -> (r: Option<bool>)
    ensures
        r == presence_named(v@),
{
    if same_text(v, "present") {
        Some(true)
    } else if same_text(v, "missing") {
        Some(false)
    } else {
        None
    }
}

/// Whether a presence is demanded.
fn demands(had: Option<bool>, v: &str) -> (r: bool)
    ensures
        r == (presence_named(v@) is Some && had == presence_named(v@)),
{
    match (had, presence_of(v)) {
        (Some(a), Some(b)) => a == b,
        _ => false,
    }
}

/// A presence after it is toggled.
fn toggle_presence(had: Option<bool>, v: &str) -> (r: Option<bool>)
    ensures
        r == presence_toggled(had, v@),
{
    match presence_of(v) {
        Some(want) => match had {
            Some(a) => {
                if a == want {
                    None
                } else {
                    Some(want)
                }
            },
            None => Some(want),
        },
        None => had,
    }
}

/// Whether a filter demands emergency lighting of any type.
fn wants_any_emergency(f: &Filter) -> (r: bool)
    ensures
        r == any_emergency(f@),
{
    match f.has_emergency_lighting {
        Some(b) => b && f.emergency_lighting_type.is_empty(),
        None => false,
    }
}

/// Whether a value of a field is chosen.
pub fn is_selected(f: &Filter, field: FacetField, v: &str) -> (r: bool)
    ensures
        r == chosen(f@, field, v@),
{
    match field {
        FacetField::Manufacturer => match &f.manufacturer {
            Some(list) => list_has(list, v),
            None => false,
        },
        FacetField::MountingPlace => match mounting_place_from_str(v) {
            Some(p) => has_place(&f.mounting_place, p),
            None => false,
        },
        FacetField::MountingType => match mounting_type_from_str(v) {
            Some(t) => has_type(&f.mounting_type, t),
            None => false,
        },
        FacetField::HasPhotometry => demands(f.has_photometry, v),
        FacetField::Has3d => demands(f.has_3d, v),
        FacetField::HasEmergencyLighting => demands(f.has_emergency_lighting, v),
        _ => {
            if field == FacetField::EmergencyLightingType && same_text(v, UNSPECIFIED_EMERGENCY) {
                return wants_any_emergency(f);
            }
            match field_axis(field) {
                Some(axis) => match id_of(axis, v) {
                    Some(id) => slot(f, axis).contains(id),
                    None => false,
                },
                None => false,
            }
        },
    }
}

/// Toggles a value of a field.
pub fn on_toggle(f: &mut Filter, field: FacetField, v: &str)
    ensures
        final(f)@ == filter_toggled(old(f)@, field, v@),
{
    match field {
        FacetField::Manufacturer => toggle_manufacturer(f, v),
        FacetField::MountingPlace => match mounting_place_from_str(v) {
            Some(p) => toggle_place(&mut f.mounting_place, p),
            None => {},
        },
        FacetField::MountingType => match mounting_type_from_str(v) {
            Some(t) => toggle_type(&mut f.mounting_type, t),
            None => {},
        },
        FacetField::HasPhotometry => {
            f.has_photometry = toggle_presence(f.has_photometry, v);
        },
        FacetField::Has3d => {
            f.has_3d = toggle_presence(f.has_3d, v);
        },
        FacetField::HasEmergencyLighting => {
            f.has_emergency_lighting = toggle_presence(f.has_emergency_lighting, v);
        },
        _ => {
            if field == FacetField::EmergencyLightingType && same_text(v, UNSPECIFIED_EMERGENCY) {
                if wants_any_emergency(f) {
                    f.has_emergency_lighting = None;
                } else {
                    f.has_emergency_lighting = Some(true);
                    f.emergency_lighting_type = IdList::new();
                }
                return;
            }
            match field_axis(field) {
                Some(axis) => match id_of(axis, v) {
                    Some(id) => toggle_id(slot_mut(f, axis), id),
                    None => {},
                },
                None => {},
            }
        },
    }
}

// ---------------------------------------------------------------------
// Suggestions
// ---------------------------------------------------------------------

/// A filter after a suggestion is taken up: a manufacturer is toggled,
/// any other value is added unless it is there.
pub open spec fn suggestion_applied(f: FilterView, s: FacetSuggestion) -> FilterView {
    if field_of(s) == FacetField::Manufacturer {
        FilterView { manufacturer: manufacturers_toggled(f.manufacturer, shown(s)), ..f }
    } else {
        match axis_of(field_of(s)) {
            Some(axis) => match value_id(axis, shown(s)) {
                Some(id) => with_ids(f, axis, joined(ids_in(f, axis), id)),
                None => f,
            },
            None => f,
        }
    }
}

/// A suggestion of anything but a manufacturer that is taken up is
/// chosen, and taking it up again changes nothing.
pub proof fn suggestion_is_chosen(f: FilterView, s: FacetSuggestion)
    requires
        field_of(s) != FacetField::Manufacturer,
        axis_of(field_of(s)) is Some,
        value_id(axis_of(field_of(s))->0, shown(s)) is Some,
    ensures
        ({
            let axis = axis_of(field_of(s))->0;
            let id = value_id(axis, shown(s))->0;
            let g = suggestion_applied(f, s);
            ids_in(g, axis).contains(id) && suggestion_applied(g, s) == g
        }),
{
    let axis = axis_of(field_of(s))->0;
    let id = value_id(axis, shown(s))->0;
    let g = suggestion_applied(f, s);
    assert(ids_in(g, axis) == joined(ids_in(f, axis), id));
    if !ids_in(f, axis).contains(id) {
        assert(ids_in(f, axis).push(id)[ids_in(f, axis).len() as int] == id);
    }
}

/// Takes up a suggestion.
pub fn apply_facet_suggestion(f: &mut Filter, s: &FacetSuggestion)
    ensures
        final(f)@ == suggestion_applied(old(f)@, *s),
{
    let (axis, value): (Axis, &String) = match s {
        FacetSuggestion::Manufacturer { value, count: _ } => {
            toggle_manufacturer(f, value.as_str());
            return;
        },
        FacetSuggestion::IpCode { value, count: _ } => (Axis::IpCode, value),
        FacetSuggestion::SafetyClass { value, count: _ } => (Axis::SafetyClass, value),
        FacetSuggestion::IkRating { value, count: _ } => (Axis::IkRating, value),
        FacetSuggestion::ProductForm { value, count: _ } => (Axis::ProductForm, value),
        FacetSuggestion::Adjustability { value, count: _ } => (Axis::Adjustability, value),
        FacetSuggestion::Label { value, count: _ } => (Axis::Label, value),
        FacetSuggestion::Application { value, count: _ } => (Axis::Application, value),
        FacetSuggestion::LampType { value, count: _ } => (Axis::LampType, value),
        FacetSuggestion::ControlGearInterface { value, count: _ } => (
            Axis::ControlGearInterface,
            value,
        ),
        FacetSuggestion::EmergencyLightingType { value, count: _ } => (
            Axis::EmergencyLightingType,
            value,
        ),
    };
    match id_of(axis, value.as_str()) {
        Some(id) => {
            let list: &mut IdList = slot_mut(f, axis);
            if !list.contains(id) {
                list.push(id);
            }
        },
        None => {},
    }
}

/// The name that a suggestion is listed under.
pub open spec fn kind_label(field: FacetField) -> Seq<char> {
    match field {
        FacetField::Manufacturer => "Manufacturer"@,
        FacetField::IpCode => "IP code"@,
        FacetField::SafetyClass => "Safety class"@,
        FacetField::IkRating => "IK rating"@,
        FacetField::ProductForm => "Product form"@,
        FacetField::Adjustability => "Adjustability"@,
        FacetField::Labels => "Label"@,
        FacetField::Applications => "Application"@,
        FacetField::LampType => "Lamp type"@,
        FacetField::ControlGearInterface => "Control gear"@,
        _ => "Emergency"@,
    }
}

/// The name that a suggestion is listed under.
pub fn facet_kind_label(s: &FacetSuggestion) -> (r: &'static str)
    ensures
        r@ == kind_label(field_of(*s)),
{
    match s {
        FacetSuggestion::Manufacturer { value: _, count: _ } => "Manufacturer",
        FacetSuggestion::IpCode { value: _, count: _ } => "IP code",
        FacetSuggestion::SafetyClass { value: _, count: _ } => "Safety class",
        FacetSuggestion::IkRating { value: _, count: _ } => "IK rating",
        FacetSuggestion::ProductForm { value: _, count: _ } => "Product form",
        FacetSuggestion::Adjustability { value: _, count: _ } => "Adjustability",
        FacetSuggestion::Label { value: _, count: _ } => "Label",
        FacetSuggestion::Application { value: _, count: _ } => "Application",
        FacetSuggestion::LampType { value: _, count: _ } => "Lamp type",
        FacetSuggestion::ControlGearInterface { value: _, count: _ } => "Control gear",
        FacetSuggestion::EmergencyLightingType { value: _, count: _ } => "Emergency",
    }
}

// ---------------------------------------------------------------------
// Groups
// ---------------------------------------------------------------------

/// One value of a group.
#[derive(Debug)]
pub struct FacetRow {
    /// The value.
    pub value: String,
    /// How many documents have it.
    pub count: u32,
    /// Whether it is chosen.
    pub selected: bool,
    /// The drawing that goes with it.
    pub glyph: Option<&'static str>,
}

/// One group of the panel.
#[derive(Debug)]
pub struct FacetGroup {
    /// The heading.
    pub name: &'static str,
    /// The field.
    pub field: FacetField,
    /// The values.
    pub rows: Vec<FacetRow>,
    /// Whether there are more values than fit without scrolling.
    pub overflows: bool,
}

/// The groups of the panel, with their headings, in order. The group of
/// manufacturers is left out where the manufacturer is fixed.
pub open spec fn panel_groups(locked: bool) -> Seq<(Seq<char>, FacetField)> {
    seq![
        ("Light distribution"@, FacetField::LightDistribution),
        ("Mounting place"@, FacetField::MountingPlace),
        ("Mounting type"@, FacetField::MountingType),
        ("Product form"@, FacetField::ProductForm),
        ("IP code"@, FacetField::IpCode),
        ("Safety class"@, FacetField::SafetyClass),
        ("IK rating"@, FacetField::IkRating),
        ("Adjustability"@, FacetField::Adjustability),
        ("Labels"@, FacetField::Labels),
    ] + (if locked {
        Seq::empty()
    } else {
        seq![("Manufacturer"@, FacetField::Manufacturer)]
    }) + seq![
        ("Lamp type"@, FacetField::LampType),
        ("Control gear interface"@, FacetField::ControlGearInterface),
        ("Emergency lighting"@, FacetField::EmergencyLightingType),
        ("Has photometry"@, FacetField::HasPhotometry),
        ("Has 3D model"@, FacetField::Has3d),
    ]
}

/// The drawing that goes with a value of a field.
pub open spec fn row_glyph(field: FacetField, v: Seq<char>) -> Option<Seq<char>> {
    if field == FacetField::LightDistribution {
        glyph_of(v)
    } else {
        None
    }
}

/// Whether a row shows a counted value.
pub open spec fn shows(r: FacetRow, c: FacetValueCount, field: FacetField, f: FilterView) -> bool {
    &&& r.value@ == c.value@
    &&& r.count == c.count
    &&& r.selected == chosen(f, field, c.value@)
    &&& row_glyph(field, c.value@) == (match r.glyph {
        Some(g) => Some(g@),
        None => None,
    })
}

/// Whether a group shows the counts of a field.
pub open spec fn group_shows(
    g: FacetGroup,
    heading: (Seq<char>, FacetField),
    counts: FacetCounts,
    f: FilterView,
) -> bool {
    let list = counts_of(counts, heading.1);
    &&& g.name@ == heading.0
    &&& g.field == heading.1
    &&& g.rows@.len() == list.len()
    &&& forall|k: int| 0 <= k < list.len() ==> shows(#[trigger] g.rows@[k], list[k], g.field, f)
    &&& g.overflows == (list.len() > 6)
}

/// Those of the first `n` groups that have values to show.
pub open spec fn filled_groups(
    groups: Seq<(Seq<char>, FacetField)>,
    counts: FacetCounts,
    n: int,
) -> Seq<(Seq<char>, FacetField)>
    decreases n,
{
    if n <= 0 {
        Seq::empty()
    } else if counts_of(counts, groups[n - 1].1).len() > 0 {
        filled_groups(groups, counts, n - 1).push(groups[n - 1])
    } else {
        filled_groups(groups, counts, n - 1)
    }
}

/// Whether `out` is the panel for some counts.
pub open spec fn is_panel(
    out: Seq<FacetGroup>,
    counts: FacetCounts,
    f: FilterView,
    locked: bool,
) -> bool {
    let groups = panel_groups(locked);
    let filled = filled_groups(groups, counts, groups.len() as int);
    &&& out.len() == filled.len()
    &&& forall|k: int| 0 <= k < out.len() ==> group_shows(#[trigger] out[k], filled[k], counts, f)
}

/// The counts of a field.
fn list_of<'a>(c: &'a FacetCounts, field: FacetField) -> (r: &'a Vec<FacetValueCount>)
    ensures
        r@ == counts_of(*c, field),
{
    match field {
        FacetField::Manufacturer => &c.manufacturer,
        FacetField::Applications => &c.applications,
        FacetField::Labels => &c.labels,
        FacetField::IpCode => &c.ip_code,
        FacetField::SafetyClass => &c.safety_class,
        FacetField::IkRating => &c.ik_rating,
        FacetField::ProductForm => &c.product_form,
        FacetField::Adjustability => &c.adjustability,
        FacetField::MountingPlace => &c.mounting_place,
        FacetField::MountingType => &c.mounting_type,
        FacetField::LightDistribution => &c.light_distribution,
        FacetField::HasPhotometry => &c.has_photometry,
        FacetField::Has3d => &c.has_3d,
        FacetField::HasEmergencyLighting => &c.has_emergency_lighting,
        FacetField::LampType => &c.lamp_type,
        FacetField::ControlGearInterface => &c.control_gear_interfaces,
        FacetField::EmergencyLightingType => &c.emergency_lighting_type,
    }
}

/// The group of a field.
fn build_group(name: &'static str, field: FacetField, counts: &FacetCounts, f: &Filter) -> (g:
    FacetGroup)
    ensures
        group_shows(g, (name@, field), *counts, f@),
{
    let list: &Vec<FacetValueCount> = list_of(counts, field);
    let mut rows: Vec<FacetRow> = Vec::new();
    let mut i: usize = 0;
    while i < list.len()
        invariant
            i <= list@.len(),
            rows@.len() == i,
            forall|k: int| 0 <= k < i ==> shows(#[trigger] rows@[k], list@[k], field, f@),
        decreases list@.len() - i,
    {
        let v: &str = list[i].value.as_str();
        let glyph: Option<&'static str> = if field == FacetField::LightDistribution {
            lvk_glyph(v)
        } else {
            None
        };
        rows.push(
            FacetRow {
                value: list[i].value.clone(),
                count: list[i].count,
                selected: is_selected(f, field, v),
                glyph,
            },
        );
        i += 1;
    }
    let overflows: bool = list.len() > 6;
    FacetGroup { name, field, rows, overflows }
}

/// The headings of the panel.
fn headings(locked: bool) -> (r: Vec<(&'static str, FacetField)>)
    ensures
        r@.len() == panel_groups(locked).len(),
        forall|k: int|
            0 <= k < r@.len() ==> ((#[trigger] r@[k]).0@, r@[k].1) == panel_groups(locked)[k],
{
    let mut r: Vec<(&'static str, FacetField)> = Vec::new();
    r.push(("Light distribution", FacetField::LightDistribution));
    r.push(("Mounting place", FacetField::MountingPlace));
    r.push(("Mounting type", FacetField::MountingType));
    r.push(("Product form", FacetField::ProductForm));
    r.push(("IP code", FacetField::IpCode));
    r.push(("Safety class", FacetField::SafetyClass));
    r.push(("IK rating", FacetField::IkRating));
    r.push(("Adjustability", FacetField::Adjustability));
    r.push(("Labels", FacetField::Labels));
    if !locked {
        r.push(("Manufacturer", FacetField::Manufacturer));
    }
    r.push(("Lamp type", FacetField::LampType));
    r.push(("Control gear interface", FacetField::ControlGearInterface));
    r.push(("Emergency lighting", FacetField::EmergencyLightingType));
    r.push(("Has photometry", FacetField::HasPhotometry));
    r.push(("Has 3D model", FacetField::Has3d));
    r
}

/// The groups of the panel. Groups without values are left out.
pub fn facet_panel(counts: &FacetCounts, f: &Filter, manufacturer_locked: bool) -> (out: Vec<
    FacetGroup,
>)
    ensures
        is_panel(out@, *counts, f@, manufacturer_locked),
{
    let names: Vec<(&'static str, FacetField)> = headings(manufacturer_locked);
    let ghost groups = panel_groups(manufacturer_locked);
    let mut out: Vec<FacetGroup> = Vec::new();
    let mut i: usize = 0;
    while i < names.len()
        invariant
            i <= names@.len() == groups.len(),
            forall|k: int|
                0 <= k < names@.len() ==> ((#[trigger] names@[k]).0@, names@[k].1) == groups[k],
            out@.len() == filled_groups(groups, *counts, i as int).len(),
            forall|k: int|
                0 <= k < out@.len() ==> group_shows(
                    #[trigger] out@[k],
                    filled_groups(groups, *counts, i as int)[k],
                    *counts,
                    f@,
                ),
        decreases names@.len() - i,
    {
        let (name, field) = names[i];
        proof {
            assert((names@[i as int].0@, names@[i as int].1) == groups[i as int]);
        }
        if list_of(counts, field).len() > 0 {
            let g: FacetGroup = build_group(name, field, counts, f);
            out.push(g);
        }
        i += 1;
    }
    out
}

/// The fields that the panel counts.
pub fn facet_fields() -> (r: Vec<FacetField>)
    ensures
        r@ == seq![
            FacetField::Applications,
            FacetField::LightDistribution,
            FacetField::MountingPlace,
            FacetField::MountingType,
            FacetField::ProductForm,
            FacetField::IpCode,
            FacetField::SafetyClass,
            FacetField::IkRating,
            FacetField::Adjustability,
            FacetField::Labels,
            FacetField::Manufacturer,
            FacetField::LampType,
            FacetField::ControlGearInterface,
            FacetField::EmergencyLightingType,
            FacetField::HasPhotometry,
            FacetField::Has3d,
        ],
{
    let mut r: Vec<FacetField> = Vec::new();
    r.push(FacetField::Applications);
    r.push(FacetField::LightDistribution);
    r.push(FacetField::MountingPlace);
    r.push(FacetField::MountingType);
    r.push(FacetField::ProductForm);
    r.push(FacetField::IpCode);
    r.push(FacetField::SafetyClass);
    r.push(FacetField::IkRating);
    r.push(FacetField::Adjustability);
    r.push(FacetField::Labels);
    r.push(FacetField::Manufacturer);
    r.push(FacetField::LampType);
    r.push(FacetField::ControlGearInterface);
    r.push(FacetField::EmergencyLightingType);
    r.push(FacetField::HasPhotometry);
    r.push(FacetField::Has3d);
    r
}

/// Whether a field has a group in the panel. Applications have their
/// tree.
pub open spec fn in_panel(field: FacetField, locked: bool) -> bool {
    match field {
        FacetField::Applications => false,
        FacetField::HasEmergencyLighting => false,
        FacetField::Manufacturer => !locked,
        _ => true,
    }
}

/// Every value that is counted in a field of the panel has a row in the
/// group of the field, with its count, and marked where it is chosen.
#[verifier::spinoff_prover]
pub proof fn counted_values_have_rows(
    out: Seq<FacetGroup>,
    counts: FacetCounts,
    f: FilterView,
    locked: bool,
    field: FacetField,
    i: int,
)
    requires
        is_panel(out, counts, f, locked),
        in_panel(field, locked),
        0 <= i < counts_of(counts, field).len(),
    ensures
        exists|k: int|
            0 <= k < out.len() && (#[trigger] out[k]).field == field && out[k].rows@.len()
                == counts_of(counts, field).len() && out[k].rows@[i].value@ == counts_of(
                counts,
                field,
            )[i].value@ && out[k].rows@[i].count == counts_of(counts, field)[i].count && (
            out[k].rows@[i].selected <==> chosen(f, field, counts_of(counts, field)[i].value@))
                && (out[k].overflows <==> out[k].rows@.len() > 6),
{
    let groups = panel_groups(locked);
    let n = groups.len() as int;
    let filled = filled_groups(groups, counts, n);
    let at = group_of_field(field, locked);
    filled_group_stands(groups, counts, n, at);
    let k = choose|k: int| 0 <= k < filled.len() && filled[k] == groups[at];
    assert(group_shows(out[k], filled[k], counts, f));
    assert(shows(out[k].rows@[i], counts_of(counts, field)[i], field, f));
}

proof fn group_of_field(field: FacetField, locked: bool) -> (at: int)
    requires
        in_panel(field, locked),
    ensures
        0 <= at < panel_groups(locked).len(),
        panel_groups(locked)[at].1 == field,
{
    let shift: int = if locked {
        0
    } else {
        1
    };
    match field {
        FacetField::LightDistribution => 0,
        FacetField::MountingPlace => 1,
        FacetField::MountingType => 2,
        FacetField::ProductForm => 3,
        FacetField::IpCode => 4,
        FacetField::SafetyClass => 5,
        FacetField::IkRating => 6,
        FacetField::Adjustability => 7,
        FacetField::Labels => 8,
        FacetField::Manufacturer => 9,
        FacetField::LampType => 9 + shift,
        FacetField::ControlGearInterface => 10 + shift,
        FacetField::EmergencyLightingType => 11 + shift,
        FacetField::HasPhotometry => 12 + shift,
        FacetField::Has3d => 13 + shift,
        _ => 0,
    }
}

proof fn filled_group_stands(
    groups: Seq<(Seq<char>, FacetField)>,
    counts: FacetCounts,
    n: int,
    at: int,
)
    requires
        0 <= at < n <= groups.len(),
        counts_of(counts, groups[at].1).len() > 0,
    ensures
        filled_groups(groups, counts, n).contains(groups[at]),
    decreases n,
{
    let all = filled_groups(groups, counts, n);
    let front = filled_groups(groups, counts, n - 1);
    if at == n - 1 {
        assert(all[front.len() as int] == groups[at]);
    } else {
        filled_group_stands(groups, counts, n - 1, at);
        let k = choose|k: int| 0 <= k < front.len() && front[k] == groups[at];
        assert(all[k] == groups[at]);
    }
}

/// A group has the heading of its field, and a fixed manufacturer has no
/// group.
#[verifier::spinoff_prover]
pub proof fn groups_have_their_headings(
    out: Seq<FacetGroup>,
    counts: FacetCounts,
    f: FilterView,
    locked: bool,
    k: int,
)
    requires
        is_panel(out, counts, f, locked),
        0 <= k < out.len(),
    ensures
        in_panel(out[k].field, locked),
        out[k].rows@.len() > 0,
        out[k].field == FacetField::LightDistribution ==> out[k].name@ == "Light distribution"@,
        out[k].field == FacetField::MountingPlace ==> out[k].name@ == "Mounting place"@,
        out[k].field == FacetField::MountingType ==> out[k].name@ == "Mounting type"@,
        out[k].field == FacetField::ProductForm ==> out[k].name@ == "Product form"@,
        out[k].field == FacetField::IpCode ==> out[k].name@ == "IP code"@,
        out[k].field == FacetField::SafetyClass ==> out[k].name@ == "Safety class"@,
        out[k].field == FacetField::IkRating ==> out[k].name@ == "IK rating"@,
        out[k].field == FacetField::Adjustability ==> out[k].name@ == "Adjustability"@,
        out[k].field == FacetField::Labels ==> out[k].name@ == "Labels"@,
        out[k].field == FacetField::Manufacturer ==> out[k].name@ == "Manufacturer"@,
        out[k].field == FacetField::LampType ==> out[k].name@ == "Lamp type"@,
        out[k].field == FacetField::ControlGearInterface ==> out[k].name@ == "Control gear interface"@,
        out[k].field == FacetField::EmergencyLightingType ==> out[k].name@ == "Emergency lighting"@,
        out[k].field == FacetField::HasPhotometry ==> out[k].name@ == "Has photometry"@,
        out[k].field == FacetField::Has3d ==> out[k].name@ == "Has 3D model"@,
{
    let groups = panel_groups(locked);
    let n = groups.len() as int;
    let filled = filled_groups(groups, counts, n);
    assert(group_shows(out[k], filled[k], counts, f));
    filled_groups_are_groups(groups, counts, n, k);
}

proof fn filled_groups_are_groups(
    groups: Seq<(Seq<char>, FacetField)>,
    counts: FacetCounts,
    n: int,
    k: int,
)
    requires
        0 <= n <= groups.len(),
        0 <= k < filled_groups(groups, counts, n).len(),
    ensures
        exists|at: int|
            0 <= at < n && #[trigger] groups[at] == filled_groups(groups, counts, n)[k]
                && counts_of(counts, groups[at].1).len() > 0,
    decreases n,
{
    let all = filled_groups(groups, counts, n);
    let front = filled_groups(groups, counts, n - 1);
    if k < front.len() {
        filled_groups_are_groups(groups, counts, n - 1, k);
        assert(all[k] == front[k]);
    } else {
        assert(all[k] == groups[n - 1]);
    }
}

} // verus!
