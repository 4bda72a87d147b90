//! Chips: one for each demand of a filter, by which it can be taken
//! back.

use crate::doc::{MountingPlace, MountingType};
use crate::facets::{
    mounting_name, place_name, place_text, type_text, UNSPECIFIED_EMERGENCY,
};
use crate::filter::{Filter, FilterView, KeyRange, U16Range, U32Range};
use crate::ids::IdList;
use crate::keys::INFINITY_KEY;
use crate::panel::{any_emergency, ids_in, slot_mut, with_ids};
use crate::tables::{
    axis_values, ids_round_trip, is_closed_list, value_id, value_of, value_text, Axis,
};
use crate::text::{decimal, owned, push_text, same_text, texts, to_decimal};
use crate::toggles::{
    dropped, manufacturers_without, mounting_place_from_str, mounting_type_from_str, place_from,
    place_named, remove_id, remove_manufacturer, remove_place, remove_type, swapped_out, type_named,
};
use vstd::prelude::*;
use vstd::seq_lib::lemma_multiset_commutative;

verus! {

/// What a chip is about.
#[derive(Clone, Copy, PartialEq, Eq, Debug, Structural)]
pub enum ChipKind {
    /// Text.
    Text,
    /// Manufacturer.
    Manufacturer,
    /// Application.
    Application,
    /// Label.
    Label,
    /// IP code.
    IpCode,
    /// Safety class.
    SafetyClass,
    /// IK rating.
    IkRating,
    /// Product form.
    ProductForm,
    /// Adjustability.
    Adjustability,
    /// Mounting place.
    MountingPlace,
    /// Mounting type.
    MountingType,
    /// Light distribution.
    LightDistribution,
    /// Presence of photometric figures.
    HasPhotometry,
    /// Presence of a 3D model.
    Has3d,
    /// Lamp type.
    LampType,
    /// Control gear interface.
    ControlGearInterface,
    /// Emergency lighting type, or emergency lighting of any type.
    EmergencyLightingType,
    /// Luminous flux.
    FluxLm,
    /// Power.
    PowerW,
    /// Efficacy.
    Efficacy,
    /// Colour temperature.
    CctK,
    /// Least colour rendering.
    CriMin,
    /// Beam angle.
    BeamDeg,
    /// Depth of the recess.
    RecessedDepthMm,
}

/// A chip.
#[derive(Debug)]
pub struct Chip {
    /// What it is about.
    pub kind: ChipKind,
    /// The value that it takes back, where there can be several.
    pub value: String,
    /// What it shows.
    pub label: String,
}

/// The view of a [`Chip`].
pub struct ChipView {
    /// What it is about.
    pub kind: ChipKind,
    /// The value that it takes back.
    pub value: Seq<char>,
    /// What it shows.
    pub label: Seq<char>,
}

impl View for Chip {
    type V = ChipView;

    open spec fn view(&self) -> ChipView {
        ChipView { kind: self.kind, value: self.value@, label: self.label@ }
    }
}

/// The views of several chips.
pub open spec fn chip_views(v: Seq<Chip>) -> Seq<ChipView> {
    v.map_values(|c: Chip| c@)
}

/// The ends of a range of measurements, in figures.
#[derive(Debug)]
pub struct Ends {
    /// The lower end.
    pub lo: String,
    /// The upper end.
    pub hi: String,
}

/// The ends of the ranges of measurements, in figures.
#[derive(Debug)]
pub struct RangeTexts {
    /// Luminous flux.
    pub flux_lm: Ends,
    /// Power.
    pub power_w: Ends,
    /// Efficacy.
    pub efficacy: Ends,
    /// Beam angle.
    pub beam_deg: Ends,
}

/// A range of measurements in figures. An end that is not bounded is
/// shown by a star.
pub open spec fn range_text(r: KeyRange, e: Ends) -> Seq<char> {
    (if r.lo == -INFINITY_KEY {
        "*"@
    } else {
        e.lo@
    }) + "\u{2013}"@ + (if r.hi == INFINITY_KEY {
        "*"@
    } else {
        e.hi@
    })
}

/// The chip of a demand that there is one of.
pub open spec fn single(kind: ChipKind, label: Seq<char>) -> Seq<ChipView> {
    seq![ChipView { kind, value: Seq::empty(), label }]
}

/// The chip of a value.
pub open spec fn valued(kind: ChipKind, prefix: Seq<char>, value: Seq<char>) -> ChipView {
    ChipView { kind, value, label: prefix + ": "@ + value }
}

/// The chips of ids.
pub open spec fn id_chips(kind: ChipKind, prefix: Seq<char>, axis: Axis, ids: Seq<u8>) -> Seq<
    ChipView,
>
    decreases ids.len(),
{
    if ids.len() == 0 {
        Seq::empty()
    } else {
        let front = id_chips(kind, prefix, axis, ids.drop_last());
        match value_text(axis, ids.last()) {
            Some(v) => front.push(valued(kind, prefix, v)),
            None => front,
        }
    }
}

/// The chips of texts.
pub open spec fn text_chips(kind: ChipKind, prefix: Seq<char>, values: Seq<Seq<char>>) -> Seq<
    ChipView,
> {
    Seq::new(values.len(), |i: int| valued(kind, prefix, values[i]))
}

/// The chips of text and manufacturers.
pub open spec fn name_chips(f: FilterView) -> Seq<ChipView> {
    (match f.text {
        Some(t) => single(ChipKind::Text, "Text: "@ + t),
        None => Seq::empty(),
    }) + (match f.manufacturer {
        Some(list) => text_chips(ChipKind::Manufacturer, "Manufacturer"@, list),
        None => Seq::empty(),
    })
}

/// The chips of closed lists.
pub open spec fn list_chips(f: FilterView) -> Seq<ChipView> {
    id_chips(ChipKind::Application, "Application"@, Axis::Application, f.applications) + id_chips(
        ChipKind::Label,
        "Label"@,
        Axis::Label,
        f.labels,
    ) + id_chips(ChipKind::IpCode, "IP"@, Axis::IpCode, f.ip_code) + id_chips(
        ChipKind::SafetyClass,
        "Safety class"@,
        Axis::SafetyClass,
        f.safety_class,
    ) + id_chips(ChipKind::IkRating, "IK"@, Axis::IkRating, f.ik_rating) + id_chips(
        ChipKind::ProductForm,
        "Form"@,
        Axis::ProductForm,
        f.product_form,
    ) + id_chips(
        ChipKind::Adjustability,
        "Adjustability"@,
        Axis::Adjustability,
        f.adjustability,
    ) + id_chips(
        ChipKind::LightDistribution,
        "Distribution"@,
        Axis::LightDistribution,
        f.light_distribution,
    ) + id_chips(ChipKind::LampType, "Lamp"@, Axis::LampType, f.lamp_type) + id_chips(
        ChipKind::ControlGearInterface,
        "Control gear"@,
        Axis::ControlGearInterface,
        f.control_gear_interfaces,
    ) + id_chips(
        ChipKind::EmergencyLightingType,
        "Emergency"@,
        Axis::EmergencyLightingType,
        f.emergency_lighting_type,
    )
}

/// The chips of mountings.
pub open spec fn mounting_chips(f: FilterView) -> Seq<ChipView> {
    text_chips(
        ChipKind::MountingPlace,
        "Mounting place"@,
        f.mounting_place.map_values(|p: MountingPlace| place_text(p)),
    ) + text_chips(
        ChipKind::MountingType,
        "Mounting type"@,
        f.mounting_type.map_values(|t: MountingType| type_text(t)),
    )
}

/// The chips of presences.
pub open spec fn presence_chips(f: FilterView) -> Seq<ChipView> {
    (match f.has_photometry {
        Some(b) => single(
            ChipKind::HasPhotometry,
            if b {
                "Photometry: present"@
            } else {
                "Photometry: missing"@
            },
        ),
        None => Seq::empty(),
    }) + (match f.has_3d {
        Some(b) => single(
            ChipKind::Has3d,
            if b {
                "3D model: present"@
            } else {
                "3D model: missing"@
            },
        ),
        None => Seq::empty(),
    }) + (if any_emergency(f) {
        seq![
            ChipView {
                kind: ChipKind::EmergencyLightingType,
                value: UNSPECIFIED_EMERGENCY@,
                label: "Emergency: (unspecified)"@,
            },
        ]
    } else {
        Seq::empty()
    })
}

/// The chip of a range of measurements.
pub open spec fn range_chip(
    kind: ChipKind,
    prefix: Seq<char>,
    r: Option<KeyRange>,
    e: Ends,
) -> Seq<ChipView> {
    match r {
        Some(x) => single(kind, prefix + range_text(x, e)),
        None => Seq::empty(),
    }
}

/// The chip of the colour temperature.
pub open spec fn cct_chip(r: Option<U16Range>) -> Seq<ChipView> {
    match r {
        Some(x) => single(
            ChipKind::CctK,
            "CCT: "@ + decimal(x.lo as nat) + "\u{2013}"@ + decimal(x.hi as nat) + " K"@,
        ),
        None => Seq::empty(),
    }
}

/// The chip of the least colour rendering.
pub open spec fn cri_chip(n: Option<u8>) -> Seq<ChipView> {
    match n {
        Some(x) => single(ChipKind::CriMin, "CRI \u{2265} "@ + decimal(x as nat)),
        None => Seq::empty(),
    }
}

/// The chip of the depth of the recess.
pub open spec fn depth_chip(r: Option<U32Range>) -> Seq<ChipView> {
    match r {
        Some(x) => single(
            ChipKind::RecessedDepthMm,
            "Recessed depth: "@ + decimal(x.lo as nat) + "\u{2013}"@ + decimal(x.hi as nat)
                + " mm"@,
        ),
        None => Seq::empty(),
    }
}

/// The chips of ranges.
pub open spec fn range_chips(f: FilterView, t: RangeTexts) -> Seq<ChipView> {
    range_chip(ChipKind::FluxLm, "Flux: "@, f.flux_lm, t.flux_lm) + range_chip(
        ChipKind::PowerW,
        "Power: "@,
        f.power_w,
        t.power_w,
    ) + range_chip(ChipKind::Efficacy, "Efficacy: "@, f.efficacy, t.efficacy) + cct_chip(f.cct_k)
        + cri_chip(f.cri_min) + range_chip(ChipKind::BeamDeg, "Beam: "@, f.beam_deg, t.beam_deg)
        + depth_chip(f.recessed_depth_mm)
}

/// The chips of a filter.
pub open spec fn chips_of(f: FilterView, t: RangeTexts) -> Seq<ChipView> {
    name_chips(f) + list_chips(f) + mounting_chips(f) + presence_chips(f) + range_chips(f, t)
}

/// A filter that demands nothing has no chips.
pub proof fn open_filter_has_no_chips(t: RangeTexts)
    ensures
        chips_of(crate::filter::open_filter(), t).len() == 0,
{
}

// ---------------------------------------------------------------------
// Collecting
// ---------------------------------------------------------------------

/// Adds a chip.
fn add_chip(out: &mut Vec<Chip>, kind: ChipKind, value: String, label: String)
    ensures
        chip_views(final(out)@) == chip_views(old(out)@).push(
            ChipView { kind, value: value@, label: label@ },
        ),
{
    let ghost before = chip_views(out@);
    let ghost c = ChipView { kind, value: value@, label: label@ };
    out.push(Chip { kind, value, label });
    proof {
        assert(chip_views(out@) =~= before.push(c));
    }
}

/// Adds the chip of a demand that there is one of.
fn add_single(out: &mut Vec<Chip>, kind: ChipKind, label: String)
    ensures
        chip_views(final(out)@) == chip_views(old(out)@) + single(kind, label@),
{
    let ghost before = chip_views(out@);
    let ghost l = label@;
    let empty: String = String::new();
    proof {
        assert(empty@ =~= Seq::empty());
    }
    add_chip(out, kind, empty, label);
    proof {
        assert(chip_views(out@) =~= before + single(kind, l));
    }
}

/// Adds the chip of a value.
fn add_valued(out: &mut Vec<Chip>, kind: ChipKind, prefix: &str, value: &str)
    ensures
        chip_views(final(out)@) == chip_views(old(out)@).push(valued(kind, prefix@, value@)),
{
    let mut label: String = owned(prefix);
    push_text(&mut label, ": ");
    push_text(&mut label, value);
    add_chip(out, kind, owned(value), label)
}

/// Adds the chips of ids.
pub fn push_id_chips(out: &mut Vec<Chip>, kind: ChipKind, prefix: &str, axis: Axis, ids: &IdList)
    ensures
        chip_views(final(out)@) == chip_views(old(out)@) + id_chips(kind, prefix@, axis, ids@),
{
    let ghost before = chip_views(out@);
    let mut i: usize = 0;
    proof {
        assert(ids@.take(0) =~= Seq::empty());
        assert(before + id_chips(kind, prefix@, axis, ids@.take(0)) =~= before);
    }
    while i < ids.len()
        invariant
            i <= ids@.len(),
            chip_views(out@) == before + id_chips(kind, prefix@, axis, ids@.take(i as int)),
        decreases ids@.len() - i,
    {
        let id: u8 = ids.get(i);
        proof {
            assert(ids@.take(i + 1).drop_last() =~= ids@.take(i as int));
            assert(ids@.take(i + 1).last() == id);
        }
        match value_of(axis, id) {
            Some(v) => {
                let ghost had = chip_views(out@);
                add_valued(out, kind, prefix, v);
                proof {
                    assert(chip_views(out@) =~= before + id_chips(
                        kind,
                        prefix@,
                        axis,
                        ids@.take(i + 1),
                    ));
                }
            },
            None => {},
        }
        i += 1;
    }
    proof {
        assert(ids@.take(ids@.len() as int) =~= ids@);
    }
}

/// Adds the chips of text and manufacturers.
fn push_names(out: &mut Vec<Chip>, f: &Filter)
    ensures
        chip_views(final(out)@) == chip_views(old(out)@) + name_chips(f@),
{
    let ghost before = chip_views(out@);
    match &f.text {
        Some(t) => {
            let mut label: String = owned("Text: ");
            push_text(&mut label, t.as_str());
            add_single(out, ChipKind::Text, label);
        },
        None => {},
    }
    let ghost mid = chip_views(out@);
    match &f.manufacturer {
        Some(list) => {
            let ghost all = text_chips(ChipKind::Manufacturer, "Manufacturer"@, texts(list@));
            let mut i: usize = 0;
            proof {
                assert(mid + all.take(0) =~= mid);
            }
            while i < list.len()
                invariant
                    i <= list@.len(),
                    all == text_chips(ChipKind::Manufacturer, "Manufacturer"@, texts(list@)),
                    chip_views(out@) == mid + all.take(i as int),
                decreases list@.len() - i,
            {
                add_valued(out, ChipKind::Manufacturer, "Manufacturer", list[i].as_str());
                proof {
                    assert(texts(list@)[i as int] == list@[i as int]@);
                    assert((mid + all.take(i as int)).push(all[i as int]) =~= mid + all.take(
                        i + 1,
                    ));
                }
                i += 1;
            }
            proof {
                assert(all.take(all.len() as int) =~= all);
            }
        },
        None => {},
    }
    proof {
        assert(chip_views(out@) =~= before + name_chips(f@));
    }
}

/// Adds the chips of closed lists.
fn push_lists(out: &mut Vec<Chip>, f: &Filter)
    ensures
        chip_views(final(out)@) == chip_views(old(out)@) + list_chips(f@),
{
    let ghost before = chip_views(out@);
    push_id_chips(out, ChipKind::Application, "Application", Axis::Application, &f.applications);
    push_id_chips(out, ChipKind::Label, "Label", Axis::Label, &f.labels);
    push_id_chips(out, ChipKind::IpCode, "IP", Axis::IpCode, &f.ip_code);
    push_id_chips(out, ChipKind::SafetyClass, "Safety class", Axis::SafetyClass, &f.safety_class);
    push_id_chips(out, ChipKind::IkRating, "IK", Axis::IkRating, &f.ik_rating);
    push_id_chips(out, ChipKind::ProductForm, "Form", Axis::ProductForm, &f.product_form);
    push_id_chips(
        out,
        ChipKind::Adjustability,
        "Adjustability",
        Axis::Adjustability,
        &f.adjustability,
    );
    push_id_chips(
        out,
        ChipKind::LightDistribution,
        "Distribution",
        Axis::LightDistribution,
        &f.light_distribution,
    );
    push_id_chips(out, ChipKind::LampType, "Lamp", Axis::LampType, &f.lamp_type);
    push_id_chips(
        out,
        ChipKind::ControlGearInterface,
        "Control gear",
        Axis::ControlGearInterface,
        &f.control_gear_interfaces,
    );
    push_id_chips(
        out,
        ChipKind::EmergencyLightingType,
        "Emergency",
        Axis::EmergencyLightingType,
        &f.emergency_lighting_type,
    );
    proof {
        assert(chip_views(out@) =~= before + list_chips(f@));
    }
}

/// Adds the chips of mountings.
fn push_mountings(out: &mut Vec<Chip>, f: &Filter)
    ensures
        chip_views(final(out)@) == chip_views(old(out)@) + mounting_chips(f@),
{
    let ghost before = chip_views(out@);
    let ghost places = text_chips(
        ChipKind::MountingPlace,
        "Mounting place"@,
        f@.mounting_place.map_values(|p: MountingPlace| place_text(p)),
    );
    let ghost types = text_chips(
        ChipKind::MountingType,
        "Mounting type"@,
        f@.mounting_type.map_values(|t: MountingType| type_text(t)),
    );
    let mut i: usize = 0;
    proof {
        assert(before + places.take(0) =~= before);
    }
    while i < f.mounting_place.len()
        invariant
            i <= f.mounting_place@.len() == places.len(),
            forall|k: int|
                0 <= k < places.len() ==> #[trigger] places[k] == valued(
                    ChipKind::MountingPlace,
                    "Mounting place"@,
                    place_text(f.mounting_place@[k]),
                ),
            chip_views(out@) == before + places.take(i as int),
        decreases f.mounting_place@.len() - i,
    {
        add_valued(
            out,
            ChipKind::MountingPlace,
            "Mounting place",
            place_name(f.mounting_place[i]),
        );
        proof {
            assert((before + places.take(i as int)).push(places[i as int]) =~= before
                + places.take(i + 1));
        }
        i += 1;
    }
    let ghost mid = chip_views(out@);
    let mut j: usize = 0;
    proof {
        assert(places.take(places.len() as int) =~= places);
        assert(mid + types.take(0) =~= mid);
    }
    while j < f.mounting_type.len()
        invariant
            j <= f.mounting_type@.len() == types.len(),
            forall|k: int|
                0 <= k < types.len() ==> #[trigger] types[k] == valued(
                    ChipKind::MountingType,
                    "Mounting type"@,
                    type_text(f.mounting_type@[k]),
                ),
            chip_views(out@) == mid + types.take(j as int),
        decreases f.mounting_type@.len() - j,
    {
        add_valued(
            out,
            ChipKind::MountingType,
            "Mounting type",
            mounting_name(f.mounting_type[j]),
        );
        proof {
            assert((mid + types.take(j as int)).push(types[j as int]) =~= mid + types.take(
                j + 1,
            ));
        }
        j += 1;
    }
    proof {
        assert(types.take(types.len() as int) =~= types);
        assert(chip_views(out@) =~= before + mounting_chips(f@));
    }
}

/// Adds the chips of presences.
fn push_presences(out: &mut Vec<Chip>, f: &Filter)
    ensures
        chip_views(final(out)@) == chip_views(old(out)@) + presence_chips(f@),
{
    let ghost before = chip_views(out@);
    match f.has_photometry {
        Some(b) => {
            let label: &str = if b {
                "Photometry: present"
            } else {
                "Photometry: missing"
            };
            add_single(out, ChipKind::HasPhotometry, owned(label));
        },
        None => {},
    }
    match f.has_3d {
        Some(b) => {
            let label: &str = if b {
                "3D model: present"
            } else {
                "3D model: missing"
            };
            add_single(out, ChipKind::Has3d, owned(label));
        },
        None => {},
    }
    let any: bool = match f.has_emergency_lighting {
        Some(b) => b && f.emergency_lighting_type.is_empty(),
        None => false,
    };
    if any {
        add_chip(
            out,
            ChipKind::EmergencyLightingType,
            owned(UNSPECIFIED_EMERGENCY),
            owned("Emergency: (unspecified)"),
        );
    }
    proof {
        assert(chip_views(out@) =~= before + presence_chips(f@));
    }
}

/// A range of measurements in figures.
pub fn fmt_range_f32(r: KeyRange, e: &Ends) -> (s: String)
    ensures
        s@ == range_text(r, *e),
{
    let mut s: String = if r.lo == -INFINITY_KEY {
        owned("*")
    } else {
        e.lo.clone()
    };
    push_text(&mut s, "\u{2013}");
    if r.hi == INFINITY_KEY {
        push_text(&mut s, "*");
    } else {
        push_text(&mut s, e.hi.as_str());
    }
    s
}

/// Adds the chip of a range of measurements.
fn push_range(out: &mut Vec<Chip>, kind: ChipKind, prefix: &str, r: Option<KeyRange>, e: &Ends)
    ensures
        chip_views(final(out)@) == chip_views(old(out)@) + range_chip(kind, prefix@, r, *e),
{
    let ghost before = chip_views(out@);
    match r {
        Some(x) => {
            let mut label: String = owned(prefix);
            push_text(&mut label, fmt_range_f32(x, e).as_str());
            add_single(out, kind, label);
        },
        None => {
            proof {
                assert(before + Seq::<ChipView>::empty() =~= before);
            }
        },
    }
}

/// Two numerals with a dash between them, between two texts.
fn span_text(prefix: &str, lo: u32, hi: u32, unit: &str) -> (r: String)
    ensures
        r@ == prefix@ + decimal(lo as nat) + "\u{2013}"@ + decimal(hi as nat) + unit@,
{
    let mut r: String = owned(prefix);
    push_text(&mut r, to_decimal(lo as u64).as_str());
    push_text(&mut r, "\u{2013}");
    push_text(&mut r, to_decimal(hi as u64).as_str());
    push_text(&mut r, unit);
    r
}

/// Adds the chip of the colour temperature.
fn push_cct(out: &mut Vec<Chip>, r: Option<U16Range>)
    ensures
        chip_views(final(out)@) == chip_views(old(out)@) + cct_chip(r),
{
    let ghost before = chip_views(out@);
    match r {
        Some(x) => add_single(
            out,
            ChipKind::CctK,
            span_text("CCT: ", x.lo as u32, x.hi as u32, " K"),
        ),
        None => {
            proof {
                assert(before + Seq::<ChipView>::empty() =~= before);
            }
        },
    }
}

/// Adds the chip of the least colour rendering.
fn push_cri(out: &mut Vec<Chip>, n: Option<u8>)
    ensures
        chip_views(final(out)@) == chip_views(old(out)@) + cri_chip(n),
{
    let ghost before = chip_views(out@);
    match n {
        Some(x) => {
            let mut label: String = owned("CRI \u{2265} ");
            push_text(&mut label, to_decimal(x as u64).as_str());
            add_single(out, ChipKind::CriMin, label);
        },
        None => {
            proof {
                assert(before + Seq::<ChipView>::empty() =~= before);
            }
        },
    }
}

/// Adds the chip of the depth of the recess.
fn push_depth(out: &mut Vec<Chip>, r: Option<U32Range>)
    ensures
        chip_views(final(out)@) == chip_views(old(out)@) + depth_chip(r),
{
    let ghost before = chip_views(out@);
    match r {
        Some(x) => add_single(
            out,
            ChipKind::RecessedDepthMm,
            span_text("Recessed depth: ", x.lo, x.hi, " mm"),
        ),
        None => {
            proof {
                assert(before + Seq::<ChipView>::empty() =~= before);
            }
        },
    }
}

/// Adds the chips of ranges.
fn push_ranges(out: &mut Vec<Chip>, f: &Filter, t: &RangeTexts)
    ensures
        chip_views(final(out)@) == chip_views(old(out)@) + range_chips(f@, *t),
{
    let ghost before = chip_views(out@);
    push_range(out, ChipKind::FluxLm, "Flux: ", f.flux_lm, &t.flux_lm);
    push_range(out, ChipKind::PowerW, "Power: ", f.power_w, &t.power_w);
    push_range(out, ChipKind::Efficacy, "Efficacy: ", f.efficacy, &t.efficacy);
    push_cct(out, f.cct_k);
    push_cri(out, f.cri_min);
    push_range(out, ChipKind::BeamDeg, "Beam: ", f.beam_deg, &t.beam_deg);
    push_depth(out, f.recessed_depth_mm);
    proof {
        assert(chip_views(out@) =~= before + range_chips(f@, *t));
    }
}

/// The chips of a filter.
pub fn collect_chips(f: &Filter, t: &RangeTexts) -> (out: Vec<Chip>)
    ensures
        chip_views(out@) == chips_of(f@, *t),
{
    let mut out: Vec<Chip> = Vec::new();
    proof {
        assert(chip_views(out@) =~= Seq::empty());
    }
    push_names(&mut out, f);
    push_lists(&mut out, f);
    push_mountings(&mut out, f);
    push_presences(&mut out, f);
    push_ranges(&mut out, f, t);
    proof {
        assert(chip_views(out@) =~= chips_of(f@, *t));
    }
    out
}

/// Those of the first `n` chips that are not about manufacturers.
pub open spec fn without_manufacturers(s: Seq<ChipView>, n: int) -> Seq<ChipView>
    decreases n,
{
    if n <= 0 {
        Seq::empty()
    } else if s[n - 1].kind == ChipKind::Manufacturer {
        without_manufacturers(s, n - 1)
    } else {
        without_manufacturers(s, n - 1).push(s[n - 1])
    }
}

/// The chips that are shown: where the manufacturer is fixed, none is
/// about it.
pub fn shown_chips(f: &Filter, t: &RangeTexts, manufacturer_locked: bool) -> (out: Vec<Chip>)
    ensures
        chip_views(out@) == (if manufacturer_locked {
            without_manufacturers(chips_of(f@, *t), chips_of(f@, *t).len() as int)
        } else {
            chips_of(f@, *t)
        }),
{
    let all: Vec<Chip> = collect_chips(f, t);
    if !manufacturer_locked {
        return all;
    }
    let ghost views = chip_views(all@);
    let mut out: Vec<Chip> = Vec::new();
    let mut i: usize = 0;
    proof {
        assert(chip_views(out@) =~= Seq::empty());
        assert(views.len() == all@.len());
    }
    while i < all.len()
        invariant
            i <= all@.len(),
            views == chip_views(all@),
            chip_views(out@) == without_manufacturers(views, i as int),
        decreases all@.len() - i,
    {
        proof {
            assert(views[i as int] == all@[i as int]@);
        }
        if all[i].kind != ChipKind::Manufacturer {
            add_chip(&mut out, all[i].kind, all[i].value.clone(), all[i].label.clone());
        }
        i += 1;
    }
    out
}

// ---------------------------------------------------------------------
// Taking back
// ---------------------------------------------------------------------

/// The closed list that a chip is about.
pub open spec fn chip_axis(kind: ChipKind) -> Option<Axis> {
    match kind {
        ChipKind::Application => Some(Axis::Application),
        ChipKind::Label => Some(Axis::Label),
        ChipKind::IpCode => Some(Axis::IpCode),
        ChipKind::SafetyClass => Some(Axis::SafetyClass),
        ChipKind::IkRating => Some(Axis::IkRating),
        ChipKind::ProductForm => Some(Axis::ProductForm),
        ChipKind::Adjustability => Some(Axis::Adjustability),
        ChipKind::LightDistribution => Some(Axis::LightDistribution),
        ChipKind::LampType => Some(Axis::LampType),
        ChipKind::ControlGearInterface => Some(Axis::ControlGearInterface),
        ChipKind::EmergencyLightingType => Some(Axis::EmergencyLightingType),
        _ => None,
    }
}

/// A filter without the value of a closed list.
pub open spec fn id_taken_back(f: FilterView, axis: Axis, value: Seq<char>) -> FilterView {
    match value_id(axis, value) {
        Some(id) => with_ids(f, axis, dropped(ids_in(f, axis), id)),
        None => f,
    }
}

/// A filter without the demand of a chip.
pub open spec fn chip_taken_back(f: FilterView, kind: ChipKind, value: Seq<char>) -> FilterView {
    match kind {
        ChipKind::Text => FilterView { text: None, ..f },
        ChipKind::Manufacturer => FilterView {
            manufacturer: manufacturers_without(f.manufacturer, value),
            ..f
        },
        ChipKind::MountingPlace => match place_named(value) {
            Some(p) => FilterView { mounting_place: dropped(f.mounting_place, p), ..f },
            None => f,
        },
        ChipKind::MountingType => match type_named(value) {
            Some(t) => FilterView { mounting_type: dropped(f.mounting_type, t), ..f },
            None => f,
        },
        ChipKind::HasPhotometry => FilterView { has_photometry: None, ..f },
        ChipKind::Has3d => FilterView { has_3d: None, ..f },
        ChipKind::FluxLm => FilterView { flux_lm: None, ..f },
        ChipKind::PowerW => FilterView { power_w: None, ..f },
        ChipKind::Efficacy => FilterView { efficacy: None, ..f },
        ChipKind::CctK => FilterView { cct_k: None, ..f },
        ChipKind::CriMin => FilterView { cri_min: None, ..f },
        ChipKind::BeamDeg => FilterView { beam_deg: None, ..f },
        ChipKind::RecessedDepthMm => FilterView { recessed_depth_mm: None, ..f },
        _ => if kind == ChipKind::EmergencyLightingType && value == UNSPECIFIED_EMERGENCY@ {
            if f.emergency_lighting_type.len() == 0 {
                FilterView { has_emergency_lighting: None, ..f }
            } else {
                f
            }
        } else {
            match chip_axis(kind) {
                Some(axis) => id_taken_back(f, axis, value),
                None => f,
            }
        },
    }
}

/// The words before the values of a closed list.
pub open spec fn chip_prefix(axis: Axis) -> Seq<char> {
    match axis {
        Axis::Application => "Application"@,
        Axis::Label => "Label"@,
        Axis::IpCode => "IP"@,
        Axis::SafetyClass => "Safety class"@,
        Axis::IkRating => "IK"@,
        Axis::ProductForm => "Form"@,
        Axis::Adjustability => "Adjustability"@,
        Axis::LightDistribution => "Distribution"@,
        Axis::LampType => "Lamp"@,
        Axis::ControlGearInterface => "Control gear"@,
        Axis::EmergencyLightingType => "Emergency"@,
    }
}

/// The chip of emergency lighting of any type.
spec fn unspecified_chips(f: FilterView) -> Seq<ChipView> {
    if any_emergency(f) {
        seq![
            ChipView {
                kind: ChipKind::EmergencyLightingType,
                value: UNSPECIFIED_EMERGENCY@,
                label: "Emergency: (unspecified)"@,
            },
        ]
    } else {
        Seq::empty()
    }
}

/// The chip of a presence.
spec fn presence_chip(kind: ChipKind, there: Seq<char>, gone: Seq<char>, b: Option<bool>) -> Seq<
    ChipView,
> {
    match b {
        Some(b) => single(
            kind,
            if b {
                there
            } else {
                gone
            },
        ),
        None => Seq::empty(),
    }
}

/// The chips of one kind.
spec fn chips_of_kind(f: FilterView, t: RangeTexts, kind: ChipKind) -> Seq<ChipView> {
    match kind {
        ChipKind::Text => match f.text {
            Some(x) => single(ChipKind::Text, "Text: "@ + x),
            None => Seq::empty(),
        },
        ChipKind::Manufacturer => match f.manufacturer {
            Some(list) => text_chips(ChipKind::Manufacturer, "Manufacturer"@, list),
            None => Seq::empty(),
        },
        ChipKind::MountingPlace => text_chips(
            ChipKind::MountingPlace,
            "Mounting place"@,
            f.mounting_place.map_values(|p: MountingPlace| place_text(p)),
        ),
        ChipKind::MountingType => text_chips(
            ChipKind::MountingType,
            "Mounting type"@,
            f.mounting_type.map_values(|x: MountingType| type_text(x)),
        ),
        ChipKind::HasPhotometry => presence_chip(
            kind,
            "Photometry: present"@,
            "Photometry: missing"@,
            f.has_photometry,
        ),
        ChipKind::Has3d => presence_chip(
            kind,
            "3D model: present"@,
            "3D model: missing"@,
            f.has_3d,
        ),
        ChipKind::FluxLm => range_chip(kind, "Flux: "@, f.flux_lm, t.flux_lm),
        ChipKind::PowerW => range_chip(kind, "Power: "@, f.power_w, t.power_w),
        ChipKind::Efficacy => range_chip(kind, "Efficacy: "@, f.efficacy, t.efficacy),
        ChipKind::CctK => cct_chip(f.cct_k),
        ChipKind::CriMin => cri_chip(f.cri_min),
        ChipKind::BeamDeg => range_chip(kind, "Beam: "@, f.beam_deg, t.beam_deg),
        ChipKind::RecessedDepthMm => depth_chip(f.recessed_depth_mm),
        ChipKind::EmergencyLightingType => id_chips(
            kind,
            "Emergency"@,
            Axis::EmergencyLightingType,
            f.emergency_lighting_type,
        ) + unspecified_chips(f),
        _ => match chip_axis(kind) {
            Some(axis) => id_chips(kind, chip_prefix(axis), axis, ids_in(f, axis)),
            None => Seq::empty(),
        },
    }
}

/// How often a chip stands among others.
spec fn copies(s: Seq<ChipView>, x: ChipView) -> nat {
    s.to_multiset().count(x)
}

proof fn copies_join(a: Seq<ChipView>, b: Seq<ChipView>, x: ChipView)
    ensures
        copies(a + b, x) == copies(a, x) + copies(b, x),
{
    lemma_multiset_commutative(a, b);
}

proof fn copies_of_one(c: ChipView, x: ChipView)
    ensures
        copies(seq![c], x) == if x == c {
            1nat
        } else {
            0
        },
        copies(Seq::empty(), x) == 0,
{
    broadcast use vstd::seq_lib::group_to_multiset_ensures;

    let e = Seq::<ChipView>::empty();
    assert(e.push(c) =~= seq![c]);
    assert(!e.contains(x));
}

/// A chip of another kind does not stand among chips of one kind.
proof fn no_copies(s: Seq<ChipView>, kind: ChipKind, x: ChipView)
    requires
        forall|i: int| 0 <= i < s.len() ==> (#[trigger] s[i]).kind == kind,
    ensures
        x.kind != kind ==> copies(s, x) == 0,
{
    broadcast use vstd::seq_lib::group_to_multiset_ensures;

    if x.kind != kind {
        assert(!s.contains(x));
    }
}

/// Where an element is swapped out, one copy of it is gone.
proof fn copies_swapped_out(s: Seq<ChipView>, i: int, x: ChipView)
    requires
        0 <= i < s.len(),
    ensures
        copies(s, x) == copies(swapped_out(s, i), x) + if x == s[i] {
            1nat
        } else {
            0
        },
{
    let out = swapped_out(s, i);
    let last = s.len() - 1;
    copies_of_one(s[i], x);
    copies_of_one(s[last], x);
    if i == last {
        assert(out + seq![s[i]] =~= s);
        copies_join(out, seq![s[i]], x);
    } else {
        let a = s.take(i);
        let mid = s.subrange(i + 1, last);
        let z = seq![s[last]];
        let y = seq![s[i]];
        assert(s =~= a + y + mid + z);
        assert(out =~= a + z + mid);
        copies_join(a, y, x);
        copies_join(a + y, mid, x);
        copies_join(a + y + mid, z, x);
        copies_join(a, z, x);
        copies_join(a + z, mid, x);
    }
}

/// The chips of ids in a row are those of each part.
proof fn id_chips_join(kind: ChipKind, prefix: Seq<char>, axis: Axis, a: Seq<u8>, b: Seq<u8>)
    ensures
        id_chips(kind, prefix, axis, a + b) == id_chips(kind, prefix, axis, a) + id_chips(
            kind,
            prefix,
            axis,
            b,
        ),
    decreases b.len(),
{
    let front = id_chips(kind, prefix, axis, a);
    if b.len() == 0 {
        assert(a + b =~= a);
        assert(front + id_chips(kind, prefix, axis, b) =~= front);
    } else {
        id_chips_join(kind, prefix, axis, a, b.drop_last());
        assert((a + b).drop_last() =~= a + b.drop_last());
        assert((a + b).last() == b.last());
        let mid = id_chips(kind, prefix, axis, b.drop_last());
        match value_text(axis, b.last()) {
            Some(v) => {
                let c = valued(kind, prefix, v);
                assert((front + mid).push(c) =~= front + mid.push(c));
            },
            None => {},
        }
    }
}

/// The chips of ids are of their kind, and have the values of the ids.
proof fn id_chips_are_valued(kind: ChipKind, prefix: Seq<char>, axis: Axis, ids: Seq<u8>)
    ensures
        forall|i: int|
            0 <= i < id_chips(kind, prefix, axis, ids).len() ==> {
                let c = #[trigger] id_chips(kind, prefix, axis, ids)[i];
                c.kind == kind && exists|k: int|
                    0 <= k < ids.len() && value_text(axis, #[trigger] ids[k]) == Some(c.value) && c
                        == valued(kind, prefix, c.value)
            },
    decreases ids.len(),
{
    if ids.len() > 0 {
        let front = ids.drop_last();
        id_chips_are_valued(kind, prefix, axis, front);
        let all = id_chips(kind, prefix, axis, ids);
        let before = id_chips(kind, prefix, axis, front);
        assert forall|i: int| 0 <= i < all.len() implies {
            let c = #[trigger] all[i];
            c.kind == kind && exists|k: int|
                0 <= k < ids.len() && value_text(axis, #[trigger] ids[k]) == Some(c.value) && c
                    == valued(kind, prefix, c.value)
        } by {
            let c = all[i];
            if i < before.len() {
                assert(c == before[i]);
                let k = choose|k: int|
                    0 <= k < front.len() && value_text(axis, #[trigger] front[k]) == Some(c.value)
                        && c == valued(kind, prefix, c.value);
                assert(ids[k] == front[k]);
            } else {
                assert(value_text(axis, ids[ids.len() - 1]) == Some(c.value));
            }
        }
    }
}

/// Where an id is dropped, one copy of its chip is gone.
proof fn id_chips_dropped(
    kind: ChipKind,
    prefix: Seq<char>,
    axis: Axis,
    ids: Seq<u8>,
    c: ChipView,
    x: ChipView,
)
    requires
        is_closed_list(axis),
        id_chips(kind, prefix, axis, ids).contains(c),
    ensures
        value_id(axis, c.value) is Some,
        copies(id_chips(kind, prefix, axis, ids), x) == copies(
            id_chips(kind, prefix, axis, dropped(ids, value_id(axis, c.value)->0)),
            x,
        ) + if x == c {
            1nat
        } else {
            0
        },
{
    let all = id_chips(kind, prefix, axis, ids);
    id_chips_are_valued(kind, prefix, axis, ids);
    let at = choose|i: int| 0 <= i < all.len() && all[i] == c;
    assert(all[at] == c);
    let k = choose|k: int|
        0 <= k < ids.len() && value_text(axis, #[trigger] ids[k]) == Some(c.value) && c == valued(
            kind,
            prefix,
            c.value,
        );
    let id = ids[k];
    ids_round_trip(axis, id);
    crate::toggles::place_is_exact(ids, id, 0);
    let i = place_from(ids, id, 0)->0;
    let out = swapped_out(ids, i);
    let last = ids.len() - 1;
    let y = seq![id];
    assert(y.drop_last() =~= Seq::empty());
    assert(id_chips(kind, prefix, axis, y.drop_last()) =~= Seq::empty());
    assert(id_chips(kind, prefix, axis, y) =~= seq![c]);
    copies_of_one(c, x);
    if i == last {
        assert(ids =~= out + y);
        id_chips_join(kind, prefix, axis, out, y);
        copies_join(id_chips(kind, prefix, axis, out), seq![c], x);
    } else {
        let a = ids.take(i);
        let mid = ids.subrange(i + 1, last);
        let z = seq![ids[last]];
        assert(ids =~= a + y + mid + z);
        assert(out =~= a + z + mid);
        let (ca, cy, cm, cz) = (
            id_chips(kind, prefix, axis, a),
            id_chips(kind, prefix, axis, y),
            id_chips(kind, prefix, axis, mid),
            id_chips(kind, prefix, axis, z),
        );
        id_chips_join(kind, prefix, axis, a, y);
        id_chips_join(kind, prefix, axis, a + y, mid);
        id_chips_join(kind, prefix, axis, a + y + mid, z);
        id_chips_join(kind, prefix, axis, a, z);
        id_chips_join(kind, prefix, axis, a + z, mid);
        copies_join(ca, cy, x);
        copies_join(ca + cy, cm, x);
        copies_join(ca + cy + cm, cz, x);
        copies_join(ca, cz, x);
        copies_join(ca + cz, cm, x);
    }
}

/// Where a text is swapped out, one copy of its chip is gone.
proof fn text_chips_swapped_out(
    kind: ChipKind,
    prefix: Seq<char>,
    values: Seq<Seq<char>>,
    i: int,
    x: ChipView,
)
    requires
        0 <= i < values.len(),
    ensures
        copies(text_chips(kind, prefix, values), x) == copies(
            text_chips(kind, prefix, swapped_out(values, i)),
            x,
        ) + if x == valued(kind, prefix, values[i]) {
            1nat
        } else {
            0
        },
{
    let all = text_chips(kind, prefix, values);
    copies_swapped_out(all, i, x);
    assert(text_chips(kind, prefix, swapped_out(values, i)) =~= swapped_out(all, i));
}

/// A chip stands among all chips as often as among those of its kind.
#[verifier::spinoff_prover]
proof fn kind_decides(f: FilterView, t: RangeTexts, x: ChipView)
    ensures
        copies(chips_of(f, t), x) == copies(chips_of_kind(f, t, x.kind), x),
{
    kind_decides_of_names(f, t, x);
    kind_decides_of_lists(f, t, x);
    kind_decides_of_mountings(f, t, x);
    kind_decides_of_presences(f, t, x);
    kind_decides_of_ranges(f, t, x);
    let a = name_chips(f);
    let b = list_chips(f);
    let c = mounting_chips(f);
    let d = presence_chips(f);
    let e = range_chips(f, t);
    copies_join(a, b, x);
    copies_join(a + b, c, x);
    copies_join(a + b + c, d, x);
    copies_join(a + b + c + d, e, x);
    if x.kind == ChipKind::EmergencyLightingType {
        copies_join(
            id_chips(x.kind, "Emergency"@, Axis::EmergencyLightingType, f.emergency_lighting_type),
            unspecified_chips(f),
            x,
        );
    }
}

proof fn kind_decides_of_names(f: FilterView, t: RangeTexts, x: ChipView)
    ensures
        copies(name_chips(f), x) == if x.kind == ChipKind::Text || x.kind
            == ChipKind::Manufacturer {
            copies(chips_of_kind(f, t, x.kind), x)
        } else {
            0
        },
{
    let a = chips_of_kind(f, t, ChipKind::Text);
    let b = chips_of_kind(f, t, ChipKind::Manufacturer);
    no_copies(a, ChipKind::Text, x);
    no_copies(b, ChipKind::Manufacturer, x);
    copies_join(a, b, x);
}

/// Whether a kind is about a closed list.
spec fn is_listed(kind: ChipKind) -> bool {
    chip_axis(kind) is Some
}

/// The chips of the ids of one closed list.
spec fn axis_chips(f: FilterView, kind: ChipKind) -> Seq<ChipView> {
    match chip_axis(kind) {
        Some(axis) => id_chips(kind, chip_prefix(axis), axis, ids_in(f, axis)),
        None => Seq::empty(),
    }
}

#[verifier::spinoff_prover]
proof fn kind_decides_of_lists(f: FilterView, t: RangeTexts, x: ChipView)
    ensures
        copies(list_chips(f), x) == if is_listed(x.kind) {
            copies(axis_chips(f, x.kind), x)
        } else {
            0
        },
{
    let c0 = axis_chips(f, ChipKind::Application);
    let c1 = axis_chips(f, ChipKind::Label);
    let c2 = axis_chips(f, ChipKind::IpCode);
    let c3 = axis_chips(f, ChipKind::SafetyClass);
    let c4 = axis_chips(f, ChipKind::IkRating);
    let c5 = axis_chips(f, ChipKind::ProductForm);
    let c6 = axis_chips(f, ChipKind::Adjustability);
    let c7 = axis_chips(f, ChipKind::LightDistribution);
    let c8 = axis_chips(f, ChipKind::LampType);
    let c9 = axis_chips(f, ChipKind::ControlGearInterface);
    let c10 = axis_chips(f, ChipKind::EmergencyLightingType);
    id_chips_are_valued(ChipKind::Application, "Application"@, Axis::Application, f.applications);
    no_copies(c0, ChipKind::Application, x);
    id_chips_are_valued(ChipKind::Label, "Label"@, Axis::Label, f.labels);
    no_copies(c1, ChipKind::Label, x);
    id_chips_are_valued(ChipKind::IpCode, "IP"@, Axis::IpCode, f.ip_code);
    no_copies(c2, ChipKind::IpCode, x);
    id_chips_are_valued(ChipKind::SafetyClass, "Safety class"@, Axis::SafetyClass, f.safety_class);
    no_copies(c3, ChipKind::SafetyClass, x);
    id_chips_are_valued(ChipKind::IkRating, "IK"@, Axis::IkRating, f.ik_rating);
    no_copies(c4, ChipKind::IkRating, x);
    id_chips_are_valued(ChipKind::ProductForm, "Form"@, Axis::ProductForm, f.product_form);
    no_copies(c5, ChipKind::ProductForm, x);
    id_chips_are_valued(ChipKind::Adjustability, "Adjustability"@, Axis::Adjustability, f.adjustability);
    no_copies(c6, ChipKind::Adjustability, x);
    id_chips_are_valued(ChipKind::LightDistribution, "Distribution"@, Axis::LightDistribution, f.light_distribution);
    no_copies(c7, ChipKind::LightDistribution, x);
    id_chips_are_valued(ChipKind::LampType, "Lamp"@, Axis::LampType, f.lamp_type);
    no_copies(c8, ChipKind::LampType, x);
    id_chips_are_valued(ChipKind::ControlGearInterface, "Control gear"@, Axis::ControlGearInterface, f.control_gear_interfaces);
    no_copies(c9, ChipKind::ControlGearInterface, x);
    id_chips_are_valued(ChipKind::EmergencyLightingType, "Emergency"@, Axis::EmergencyLightingType, f.emergency_lighting_type);
    no_copies(c10, ChipKind::EmergencyLightingType, x);
    copies_join(c0, c1, x);
    copies_join(c0 + c1, c2, x);
    copies_join(c0 + c1 + c2, c3, x);
    copies_join(c0 + c1 + c2 + c3, c4, x);
    copies_join(c0 + c1 + c2 + c3 + c4, c5, x);
    copies_join(c0 + c1 + c2 + c3 + c4 + c5, c6, x);
    copies_join(c0 + c1 + c2 + c3 + c4 + c5 + c6, c7, x);
    copies_join(c0 + c1 + c2 + c3 + c4 + c5 + c6 + c7, c8, x);
    copies_join(c0 + c1 + c2 + c3 + c4 + c5 + c6 + c7 + c8, c9, x);
    copies_join(c0 + c1 + c2 + c3 + c4 + c5 + c6 + c7 + c8 + c9, c10, x);
}

proof fn kind_decides_of_mountings(f: FilterView, t: RangeTexts, x: ChipView)
    ensures
        copies(mounting_chips(f), x) == if x.kind == ChipKind::MountingPlace || x.kind
            == ChipKind::MountingType {
            copies(chips_of_kind(f, t, x.kind), x)
        } else {
            0
        },
{
    let a = text_chips(
        ChipKind::MountingPlace,
        "Mounting place"@,
        f.mounting_place.map_values(|p: MountingPlace| place_text(p)),
    );
    let b = text_chips(
        ChipKind::MountingType,
        "Mounting type"@,
        f.mounting_type.map_values(|t: MountingType| type_text(t)),
    );
    assert(a =~= chips_of_kind(f, t, ChipKind::MountingPlace));
    assert(b =~= chips_of_kind(f, t, ChipKind::MountingType));
    assert(mounting_chips(f) =~= a + b);
    no_copies(a, ChipKind::MountingPlace, x);
    no_copies(b, ChipKind::MountingType, x);
    copies_join(a, b, x);
}

proof fn kind_decides_of_presences(f: FilterView, t: RangeTexts, x: ChipView)
    ensures
        copies(presence_chips(f), x) == if x.kind == ChipKind::HasPhotometry || x.kind
            == ChipKind::Has3d {
            copies(chips_of_kind(f, t, x.kind), x)
        } else if x.kind == ChipKind::EmergencyLightingType {
            copies(unspecified_chips(f), x)
        } else {
            0
        },
{
    let a = chips_of_kind(f, t, ChipKind::HasPhotometry);
    let b = chips_of_kind(f, t, ChipKind::Has3d);
    let c = unspecified_chips(f);
    assert(presence_chips(f) =~= a + b + c);
    no_copies(a, ChipKind::HasPhotometry, x);
    no_copies(b, ChipKind::Has3d, x);
    no_copies(c, ChipKind::EmergencyLightingType, x);
    copies_join(a, b, x);
    copies_join(a + b, c, x);
}

/// Whether a kind is about a range.
spec fn is_ranged(kind: ChipKind) -> bool {
    match kind {
        ChipKind::FluxLm => true,
        ChipKind::PowerW => true,
        ChipKind::Efficacy => true,
        ChipKind::CctK => true,
        ChipKind::CriMin => true,
        ChipKind::BeamDeg => true,
        ChipKind::RecessedDepthMm => true,
        _ => false,
    }
}

proof fn kind_decides_of_ranges(f: FilterView, t: RangeTexts, x: ChipView)
    ensures
        copies(range_chips(f, t), x) == if is_ranged(x.kind) {
            copies(chips_of_kind(f, t, x.kind), x)
        } else {
            0
        },
{
    let c0 = chips_of_kind(f, t, ChipKind::FluxLm);
    let c1 = chips_of_kind(f, t, ChipKind::PowerW);
    let c2 = chips_of_kind(f, t, ChipKind::Efficacy);
    let c3 = chips_of_kind(f, t, ChipKind::CctK);
    let c4 = chips_of_kind(f, t, ChipKind::CriMin);
    let c5 = chips_of_kind(f, t, ChipKind::BeamDeg);
    let c6 = chips_of_kind(f, t, ChipKind::RecessedDepthMm);
    no_copies(c0, ChipKind::FluxLm, x);
    no_copies(c1, ChipKind::PowerW, x);
    no_copies(c2, ChipKind::Efficacy, x);
    no_copies(c3, ChipKind::CctK, x);
    no_copies(c4, ChipKind::CriMin, x);
    no_copies(c5, ChipKind::BeamDeg, x);
    no_copies(c6, ChipKind::RecessedDepthMm, x);
    copies_join(c0, c1, x);
    copies_join(c0 + c1, c2, x);
    copies_join(c0 + c1 + c2, c3, x);
    copies_join(c0 + c1 + c2 + c3, c4, x);
    copies_join(c0 + c1 + c2 + c3 + c4, c5, x);
    copies_join(c0 + c1 + c2 + c3 + c4 + c5, c6, x);
}

/// Whether emergency lighting is demanded beside types of it. Taking a
/// type back then may bring up the demand for any type.
pub open spec fn mixed_emergency(f: FilterView) -> bool {
    f.has_emergency_lighting == Some(true) && f.emergency_lighting_type.len() > 0
}

/// Whether the closed list of a kind of chips is as it should be.
pub open spec fn list_is_closed(kind: ChipKind) -> bool {
    chip_axis(kind) matches Some(axis) ==> is_closed_list(axis)
}

/// Among the chips of one kind, the chip that is taken back is missing
/// once afterwards.
proof fn kind_loses_one(f: FilterView, t: RangeTexts, c: ChipView, x: ChipView)
    requires
        chips_of_kind(f, t, c.kind).contains(c),
        !mixed_emergency(f),
        list_is_closed(c.kind),
    ensures
        copies(chips_of_kind(f, t, c.kind), x) == copies(
            chips_of_kind(chip_taken_back(f, c.kind, c.value), t, c.kind),
            x,
        ) + if x == c {
            1nat
        } else {
            0
        },
{
    let old_chips = chips_of_kind(f, t, c.kind);
    let g = chip_taken_back(f, c.kind, c.value);
    copies_of_one(c, x);
    match c.kind {
        ChipKind::Manufacturer => {
            let list = f.manufacturer->0;
            let at = choose|i: int| 0 <= i < old_chips.len() && old_chips[i] == c;
            assert(list[at] == c.value);
            crate::toggles::place_is_exact(list, c.value, 0);
            let i = place_from(list, c.value, 0)->0;
            text_chips_swapped_out(c.kind, "Manufacturer"@, list, i, x);
            if dropped(list, c.value).len() == 0 {
                assert(text_chips(c.kind, "Manufacturer"@, dropped(list, c.value)) =~= Seq::empty());
            }
        },
        ChipKind::MountingPlace => {
            let list = f.mounting_place;
            let names = list.map_values(|p: MountingPlace| place_text(p));
            let at = choose|i: int| 0 <= i < old_chips.len() && old_chips[i] == c;
            let p = list[at];
            assert(names[at] == place_text(p));
            crate::toggles::place_names_round_trip(p);
            crate::toggles::place_is_exact(list, p, 0);
            let i = place_from(list, p, 0)->0;
            text_chips_swapped_out(c.kind, "Mounting place"@, names, i, x);
            assert(swapped_out(names, i) =~= g.mounting_place.map_values(
                |p: MountingPlace| place_text(p),
            ));
        },
        ChipKind::MountingType => {
            let list = f.mounting_type;
            let names = list.map_values(|p: MountingType| type_text(p));
            let at = choose|i: int| 0 <= i < old_chips.len() && old_chips[i] == c;
            let p = list[at];
            assert(names =~= f.mounting_type.map_values(|x: MountingType| type_text(x)));
            assert(names[at] == type_text(p));
            crate::toggles::type_names_round_trip(p);
            crate::toggles::place_is_exact(list, p, 0);
            let i = place_from(list, p, 0)->0;
            text_chips_swapped_out(c.kind, "Mounting type"@, names, i, x);
            assert(swapped_out(names, i) =~= g.mounting_type.map_values(
                |x: MountingType| type_text(x),
            ));
        },
        ChipKind::EmergencyLightingType => {
            emergency_loses_one(f, t, c, x);
        },
        _ => {
            match chip_axis(c.kind) {
                Some(axis) => {
                    id_chips_dropped(c.kind, chip_prefix(axis), axis, ids_in(f, axis), c, x);
                },
                None => {
                    let at = choose|i: int| 0 <= i < old_chips.len() && old_chips[i] == c;
                    assert(old_chips =~= seq![c]);
                    assert(chips_of_kind(g, t, c.kind) =~= Seq::empty());
                },
            }
        },
    }
}

proof fn emergency_loses_one(f: FilterView, t: RangeTexts, c: ChipView, x: ChipView)
    requires
        c.kind == ChipKind::EmergencyLightingType,
        chips_of_kind(f, t, c.kind).contains(c),
        !mixed_emergency(f),
        list_is_closed(c.kind),
    ensures
        copies(chips_of_kind(f, t, c.kind), x) == copies(
            chips_of_kind(chip_taken_back(f, c.kind, c.value), t, c.kind),
            x,
        ) + if x == c {
            1nat
        } else {
            0
        },
{
    let axis = Axis::EmergencyLightingType;
    let ids = f.emergency_lighting_type;
    let typed = id_chips(c.kind, "Emergency"@, axis, ids);
    let g = chip_taken_back(f, c.kind, c.value);
    copies_of_one(c, x);
    id_chips_are_valued(c.kind, "Emergency"@, axis, ids);
    let all = typed + unspecified_chips(f);
    let at = choose|i: int| 0 <= i < all.len() && all[i] == c;
    if at < typed.len() {
        assert(typed[at] == c);
        let k = choose|k: int|
            0 <= k < ids.len() && value_text(axis, #[trigger] ids[k]) == Some(c.value);
        assert(axis_values(axis)[ids[k] as int] == c.value);
        assert(axis_values(axis).contains(c.value));
        assert(c.value != UNSPECIFIED_EMERGENCY@);
        id_chips_dropped(c.kind, "Emergency"@, axis, ids, c, x);
        assert(unspecified_chips(f) =~= Seq::empty());
        assert(unspecified_chips(g) =~= Seq::empty());
        assert(all =~= typed);
        let left = id_chips(c.kind, "Emergency"@, axis, g.emergency_lighting_type);
        assert(left + unspecified_chips(g) =~= left);
    } else {
        assert(c == unspecified_chips(f)[at - typed.len()]);
        assert(any_emergency(f));
        assert(typed =~= Seq::empty());
        assert(all =~= seq![c]);
        assert(chips_of_kind(g, t, c.kind) =~= Seq::empty());
    }
}

/// Whether two filters agree in what the chips of a kind speak of.
spec fn agree_on(f: FilterView, g: FilterView, kind: ChipKind) -> bool {
    match kind {
        ChipKind::Text => f.text == g.text,
        ChipKind::Manufacturer => f.manufacturer == g.manufacturer,
        ChipKind::MountingPlace => f.mounting_place == g.mounting_place,
        ChipKind::MountingType => f.mounting_type == g.mounting_type,
        ChipKind::HasPhotometry => f.has_photometry == g.has_photometry,
        ChipKind::Has3d => f.has_3d == g.has_3d,
        ChipKind::FluxLm => f.flux_lm == g.flux_lm,
        ChipKind::PowerW => f.power_w == g.power_w,
        ChipKind::Efficacy => f.efficacy == g.efficacy,
        ChipKind::CctK => f.cct_k == g.cct_k,
        ChipKind::CriMin => f.cri_min == g.cri_min,
        ChipKind::BeamDeg => f.beam_deg == g.beam_deg,
        ChipKind::RecessedDepthMm => f.recessed_depth_mm == g.recessed_depth_mm,
        _ => (chip_axis(kind) matches Some(axis) ==> ids_in(f, axis) == ids_in(g, axis)) && (kind
            == ChipKind::EmergencyLightingType ==> f.has_emergency_lighting
            == g.has_emergency_lighting),
    }
}

/// Filters that agree in a kind have the same chips of that kind.
#[verifier::spinoff_prover]
proof fn agreeing_filters_share_chips(f: FilterView, g: FilterView, t: RangeTexts, kind: ChipKind)
    requires
        agree_on(f, g, kind),
    ensures
        chips_of_kind(f, t, kind) == chips_of_kind(g, t, kind),
{
}

/// Taking a chip back changes only what its kind speaks of.
#[verifier::spinoff_prover]
proof fn taking_back_keeps_other_kinds(f: FilterView, c: ChipView, kind: ChipKind)
    requires
        kind != c.kind,
    ensures
        agree_on(f, chip_taken_back(f, c.kind, c.value), kind),
{
}

/// The chips of another kind stay as they are.
proof fn other_kinds_stay(f: FilterView, t: RangeTexts, c: ChipView, kind: ChipKind)
    requires
        kind != c.kind,
    ensures
        chips_of_kind(chip_taken_back(f, c.kind, c.value), t, kind) == chips_of_kind(f, t, kind),
{
    taking_back_keeps_other_kinds(f, c, kind);
    agreeing_filters_share_chips(f, chip_taken_back(f, c.kind, c.value), t, kind);
}

/// Taking a chip back takes that chip away, once, and no other.
pub proof fn taking_back_takes_one_chip(f: FilterView, t: RangeTexts, c: ChipView)
    requires
        chips_of(f, t).contains(c),
        !mixed_emergency(f),
        list_is_closed(c.kind),
    ensures
        chips_of(chip_taken_back(f, c.kind, c.value), t).to_multiset() == chips_of(
            f,
            t,
        ).to_multiset().remove(c),
{
    broadcast use vstd::multiset::group_multiset_axioms;
    broadcast use vstd::seq_lib::group_to_multiset_ensures;

    let g = chip_taken_back(f, c.kind, c.value);
    kind_decides(f, t, c);
    assert(copies(chips_of_kind(f, t, c.kind), c) > 0);
    assert(chips_of_kind(f, t, c.kind).contains(c));
    let before = chips_of(f, t).to_multiset();
    let after = chips_of(g, t).to_multiset();
    assert forall|x: ChipView| #[trigger] after.count(x) == before.remove(c).count(x) by {
        kind_decides(f, t, x);
        kind_decides(g, t, x);
        if x.kind == c.kind {
            kind_loses_one(f, t, c, x);
        } else {
            other_kinds_stay(f, t, c, x.kind);
        }
    }
    assert(after =~= before.remove(c));
}

/// A chip of a kind is a chip of the filter.
proof fn chip_is_shown(f: FilterView, t: RangeTexts, x: ChipView)
    ensures
        chips_of(f, t).contains(x) <==> chips_of_kind(f, t, x.kind).contains(x),
{
    broadcast use vstd::seq_lib::group_to_multiset_ensures;

    kind_decides(f, t, x);
    assert(copies(chips_of(f, t), x) > 0 <==> chips_of(f, t).contains(x));
    assert(copies(chips_of_kind(f, t, x.kind), x) > 0 <==> chips_of_kind(f, t, x.kind).contains(x));
}

/// The chips of ids are those of their values.
proof fn id_chips_are_shown(kind: ChipKind, prefix: Seq<char>, axis: Axis, ids: Seq<u8>, v: Seq<char>)
    ensures
        id_chips(kind, prefix, axis, ids).contains(valued(kind, prefix, v)) <==> exists|k: int|
            0 <= k < ids.len() && value_text(axis, #[trigger] ids[k]) == Some(v),
    decreases ids.len(),
{
    let c = valued(kind, prefix, v);
    let all = id_chips(kind, prefix, axis, ids);
    if ids.len() > 0 {
        let front = ids.drop_last();
        let had = id_chips(kind, prefix, axis, front);
        id_chips_are_shown(kind, prefix, axis, front, v);
        if had.contains(c) {
            let k = choose|k: int| 0 <= k < had.len() && had[k] == c;
            assert(all[k] == c);
            let j = choose|j: int|
                0 <= j < front.len() && value_text(axis, #[trigger] front[j]) == Some(v);
            assert(ids[j] == front[j]);
        }
        if value_text(axis, ids.last()) == Some(v) {
            assert(all[had.len() as int] == c);
            assert(value_text(axis, ids[ids.len() - 1]) == Some(v));
        }
        if all.contains(c) && !had.contains(c) {
            let k = choose|k: int| 0 <= k < all.len() && all[k] == c;
            if k < had.len() {
                assert(had[k] == c);
            }
        }
        if exists|k: int| 0 <= k < ids.len() && value_text(axis, #[trigger] ids[k]) == Some(v) {
            let k = choose|k: int|
                0 <= k < ids.len() && value_text(axis, #[trigger] ids[k]) == Some(v);
            if k < front.len() {
                assert(front[k] == ids[k]);
            }
        }
    }
}

/// A chip names each of the applications demanded, and no other.
pub proof fn chips_name_applications(f: FilterView, t: RangeTexts, v: Seq<char>)
    ensures
        chips_of(f, t).contains(
            ChipView { kind: ChipKind::Application, value: v, label: "Application"@ + ": "@ + v },
        ) <==> exists|k: int|
            0 <= k < f.applications.len() && value_text(Axis::Application, #[trigger] f.applications[k]) == Some(v),
{
    let c = ChipView { kind: ChipKind::Application, value: v, label: "Application"@ + ": "@ + v };
    assert(c == valued(ChipKind::Application, "Application"@, v));
    chip_is_shown(f, t, c);
    id_chips_are_shown(ChipKind::Application, "Application"@, Axis::Application, f.applications, v);
}

/// A chip names each of the labels demanded, and no other.
pub proof fn chips_name_labels(f: FilterView, t: RangeTexts, v: Seq<char>)
    ensures
        chips_of(f, t).contains(
            ChipView { kind: ChipKind::Label, value: v, label: "Label"@ + ": "@ + v },
        ) <==> exists|k: int|
            0 <= k < f.labels.len() && value_text(Axis::Label, #[trigger] f.labels[k]) == Some(v),
{
    let c = ChipView { kind: ChipKind::Label, value: v, label: "Label"@ + ": "@ + v };
    assert(c == valued(ChipKind::Label, "Label"@, v));
    chip_is_shown(f, t, c);
    id_chips_are_shown(ChipKind::Label, "Label"@, Axis::Label, f.labels, v);
}

/// A chip names each of the IP codes demanded, and no other.
pub proof fn chips_name_ip_codes(f: FilterView, t: RangeTexts, v: Seq<char>)
    ensures
        chips_of(f, t).contains(
            ChipView { kind: ChipKind::IpCode, value: v, label: "IP"@ + ": "@ + v },
        ) <==> exists|k: int|
            0 <= k < f.ip_code.len() && value_text(Axis::IpCode, #[trigger] f.ip_code[k]) == Some(v),
{
    let c = ChipView { kind: ChipKind::IpCode, value: v, label: "IP"@ + ": "@ + v };
    assert(c == valued(ChipKind::IpCode, "IP"@, v));
    chip_is_shown(f, t, c);
    id_chips_are_shown(ChipKind::IpCode, "IP"@, Axis::IpCode, f.ip_code, v);
}

/// A chip names each of the safety classes demanded, and no other.
pub proof fn chips_name_safety_classes(f: FilterView, t: RangeTexts, v: Seq<char>)
    ensures
        chips_of(f, t).contains(
            ChipView { kind: ChipKind::SafetyClass, value: v, label: "Safety class"@ + ": "@ + v },
        ) <==> exists|k: int|
            0 <= k < f.safety_class.len() && value_text(Axis::SafetyClass, #[trigger] f.safety_class[k]) == Some(v),
{
    let c = ChipView { kind: ChipKind::SafetyClass, value: v, label: "Safety class"@ + ": "@ + v };
    assert(c == valued(ChipKind::SafetyClass, "Safety class"@, v));
    chip_is_shown(f, t, c);
    id_chips_are_shown(ChipKind::SafetyClass, "Safety class"@, Axis::SafetyClass, f.safety_class, v);
}

/// A chip names each of the IK ratings demanded, and no other.
pub proof fn chips_name_ik_ratings(f: FilterView, t: RangeTexts, v: Seq<char>)
    ensures
        chips_of(f, t).contains(
            ChipView { kind: ChipKind::IkRating, value: v, label: "IK"@ + ": "@ + v },
        ) <==> exists|k: int|
            0 <= k < f.ik_rating.len() && value_text(Axis::IkRating, #[trigger] f.ik_rating[k]) == Some(v),
{
    let c = ChipView { kind: ChipKind::IkRating, value: v, label: "IK"@ + ": "@ + v };
    assert(c == valued(ChipKind::IkRating, "IK"@, v));
    chip_is_shown(f, t, c);
    id_chips_are_shown(ChipKind::IkRating, "IK"@, Axis::IkRating, f.ik_rating, v);
}

/// A chip names each of the forms demanded, and no other.
pub proof fn chips_name_forms(f: FilterView, t: RangeTexts, v: Seq<char>)
    ensures
        chips_of(f, t).contains(
            ChipView { kind: ChipKind::ProductForm, value: v, label: "Form"@ + ": "@ + v },
        ) <==> exists|k: int|
            0 <= k < f.product_form.len() && value_text(Axis::ProductForm, #[trigger] f.product_form[k]) == Some(v),
{
    let c = ChipView { kind: ChipKind::ProductForm, value: v, label: "Form"@ + ": "@ + v };
    assert(c == valued(ChipKind::ProductForm, "Form"@, v));
    chip_is_shown(f, t, c);
    id_chips_are_shown(ChipKind::ProductForm, "Form"@, Axis::ProductForm, f.product_form, v);
}

/// A chip names each of the adjustabilities demanded, and no other.
pub proof fn chips_name_adjustabilities(f: FilterView, t: RangeTexts, v: Seq<char>)
    ensures
        chips_of(f, t).contains(
            ChipView { kind: ChipKind::Adjustability, value: v, label: "Adjustability"@ + ": "@ + v },
        ) <==> exists|k: int|
            0 <= k < f.adjustability.len() && value_text(Axis::Adjustability, #[trigger] f.adjustability[k]) == Some(v),
{
    let c = ChipView { kind: ChipKind::Adjustability, value: v, label: "Adjustability"@ + ": "@ + v };
    assert(c == valued(ChipKind::Adjustability, "Adjustability"@, v));
    chip_is_shown(f, t, c);
    id_chips_are_shown(ChipKind::Adjustability, "Adjustability"@, Axis::Adjustability, f.adjustability, v);
}

/// A chip names each of the distributions demanded, and no other.
pub proof fn chips_name_distributions(f: FilterView, t: RangeTexts, v: Seq<char>)
    ensures
        chips_of(f, t).contains(
            ChipView { kind: ChipKind::LightDistribution, value: v, label: "Distribution"@ + ": "@ + v },
        ) <==> exists|k: int|
            0 <= k < f.light_distribution.len() && value_text(Axis::LightDistribution, #[trigger] f.light_distribution[k]) == Some(v),
{
    let c = ChipView { kind: ChipKind::LightDistribution, value: v, label: "Distribution"@ + ": "@ + v };
    assert(c == valued(ChipKind::LightDistribution, "Distribution"@, v));
    chip_is_shown(f, t, c);
    id_chips_are_shown(ChipKind::LightDistribution, "Distribution"@, Axis::LightDistribution, f.light_distribution, v);
}

/// A chip names each of the lamp types demanded, and no other.
pub proof fn chips_name_lamp_types(f: FilterView, t: RangeTexts, v: Seq<char>)
    ensures
        chips_of(f, t).contains(
            ChipView { kind: ChipKind::LampType, value: v, label: "Lamp"@ + ": "@ + v },
        ) <==> exists|k: int|
            0 <= k < f.lamp_type.len() && value_text(Axis::LampType, #[trigger] f.lamp_type[k]) == Some(v),
{
    let c = ChipView { kind: ChipKind::LampType, value: v, label: "Lamp"@ + ": "@ + v };
    assert(c == valued(ChipKind::LampType, "Lamp"@, v));
    chip_is_shown(f, t, c);
    id_chips_are_shown(ChipKind::LampType, "Lamp"@, Axis::LampType, f.lamp_type, v);
}

/// A chip names each of the interfaces demanded, and no other.
pub proof fn chips_name_interfaces(f: FilterView, t: RangeTexts, v: Seq<char>)
    ensures
        chips_of(f, t).contains(
            ChipView { kind: ChipKind::ControlGearInterface, value: v, label: "Control gear"@ + ": "@ + v },
        ) <==> exists|k: int|
            0 <= k < f.control_gear_interfaces.len() && value_text(Axis::ControlGearInterface, #[trigger] f.control_gear_interfaces[k]) == Some(v),
{
    let c = ChipView { kind: ChipKind::ControlGearInterface, value: v, label: "Control gear"@ + ": "@ + v };
    assert(c == valued(ChipKind::ControlGearInterface, "Control gear"@, v));
    chip_is_shown(f, t, c);
    id_chips_are_shown(ChipKind::ControlGearInterface, "Control gear"@, Axis::ControlGearInterface, f.control_gear_interfaces, v);
}

/// A chip names each of the emergency types demanded, and no other.
pub proof fn chips_name_emergency_types(f: FilterView, t: RangeTexts, v: Seq<char>)
    requires
        v != "(unspecified)"@,
    ensures
        chips_of(f, t).contains(
            ChipView { kind: ChipKind::EmergencyLightingType, value: v, label: "Emergency"@ + ": "@ + v },
        ) <==> exists|k: int|
            0 <= k < f.emergency_lighting_type.len() && value_text(Axis::EmergencyLightingType, #[trigger] f.emergency_lighting_type[k]) == Some(v),
{
    let c = ChipView { kind: ChipKind::EmergencyLightingType, value: v, label: "Emergency"@ + ": "@ + v };
    assert(c == valued(ChipKind::EmergencyLightingType, "Emergency"@, v));
    chip_is_shown(f, t, c);
    id_chips_are_shown(ChipKind::EmergencyLightingType, "Emergency"@, Axis::EmergencyLightingType, f.emergency_lighting_type, v);
    let typed = id_chips(ChipKind::EmergencyLightingType, "Emergency"@, Axis::EmergencyLightingType, f.emergency_lighting_type);
    let all = typed + unspecified_chips(f);
    if typed.contains(c) {
        let i = choose|i: int| 0 <= i < typed.len() && typed[i] == c;
        assert(all[i] == c);
    }
    if all.contains(c) && !typed.contains(c) {
        let i = choose|i: int| 0 <= i < all.len() && all[i] == c;
        if i < typed.len() {
            assert(typed[i] == c);
        }
    }
}

/// A chip names each manufacturer and each place and type of mounting
/// that is demanded, and no other.
pub proof fn chips_name_makers_and_mountings(
    f: FilterView,
    t: RangeTexts,
    name: Seq<char>,
    place: MountingPlace,
    kind: MountingType,
)
    ensures
        chips_of(f, t).contains(
            ChipView {
                kind: ChipKind::Manufacturer,
                value: name,
                label: "Manufacturer"@ + ": "@ + name,
            },
        ) <==> f.manufacturer is Some && f.manufacturer->0.contains(name),
        f.mounting_place.contains(place) ==> chips_of(f, t).contains(
            ChipView {
                kind: ChipKind::MountingPlace,
                value: place_text(place),
                label: "Mounting place"@ + ": "@ + place_text(place),
            },
        ),
        f.mounting_type.contains(kind) ==> chips_of(f, t).contains(
            ChipView {
                kind: ChipKind::MountingType,
                value: type_text(kind),
                label: "Mounting type"@ + ": "@ + type_text(kind),
            },
        ),
{
    let a = valued(ChipKind::Manufacturer, "Manufacturer"@, name);
    chip_is_shown(f, t, a);
    let makers = chips_of_kind(f, t, ChipKind::Manufacturer);
    if f.manufacturer is Some && f.manufacturer->0.contains(name) {
        let list = f.manufacturer->0;
        let i = choose|i: int| 0 <= i < list.len() && list[i] == name;
        assert(makers[i] == a);
    }
    if makers.contains(a) {
        let i = choose|i: int| 0 <= i < makers.len() && makers[i] == a;
        assert(f.manufacturer->0[i] == name);
    }
    let b = valued(ChipKind::MountingPlace, "Mounting place"@, place_text(place));
    chip_is_shown(f, t, b);
    if f.mounting_place.contains(place) {
        let i = choose|i: int| 0 <= i < f.mounting_place.len() && f.mounting_place[i] == place;
        assert(chips_of_kind(f, t, ChipKind::MountingPlace)[i] == b);
    }
    let c = valued(ChipKind::MountingType, "Mounting type"@, type_text(kind));
    chip_is_shown(f, t, c);
    if f.mounting_type.contains(kind) {
        let i = choose|i: int| 0 <= i < f.mounting_type.len() && f.mounting_type[i] == kind;
        assert(chips_of_kind(f, t, ChipKind::MountingType)[i] == c);
    }
}

/// There is one chip for a text, for each presence and for each range
/// that is demanded, it says what is demanded, and there is none where
/// nothing is.
#[verifier::spinoff_prover]
pub proof fn chips_say_what_is_demanded(f: FilterView, t: RangeTexts, label: Seq<char>)
    ensures
        ({
            let says = |kind: ChipKind|
                chips_of(f, t).contains(ChipView { kind, value: Seq::empty(), label });
            &&& says(ChipKind::Text) <==> f.text is Some && label == "Text: "@ + f.text->0
            &&& says(ChipKind::HasPhotometry) <==> f.has_photometry is Some && label == (
            if f.has_photometry->0 {
                "Photometry: present"@
            } else {
                "Photometry: missing"@
            })
            &&& says(ChipKind::Has3d) <==> f.has_3d is Some && label == (if f.has_3d->0 {
                "3D model: present"@
            } else {
                "3D model: missing"@
            })
            &&& says(ChipKind::CctK) <==> f.cct_k is Some && label == "CCT: "@ + decimal(
                f.cct_k->0.lo as nat,
            ) + "\u{2013}"@ + decimal(f.cct_k->0.hi as nat) + " K"@
            &&& says(ChipKind::CriMin) <==> f.cri_min is Some && label == "CRI \u{2265} "@
                + decimal(f.cri_min->0 as nat)
            &&& says(ChipKind::RecessedDepthMm) <==> f.recessed_depth_mm is Some && label
                == "Recessed depth: "@ + decimal(f.recessed_depth_mm->0.lo as nat)
                + "\u{2013}"@ + decimal(f.recessed_depth_mm->0.hi as nat) + " mm"@
            &&& says(ChipKind::FluxLm) <==> f.flux_lm is Some && label == "Flux: "@ + range_text(
                f.flux_lm->0,
                t.flux_lm,
            )
            &&& says(ChipKind::PowerW) <==> f.power_w is Some && label == "Power: "@ + range_text(
                f.power_w->0,
                t.power_w,
            )
            &&& says(ChipKind::Efficacy) <==> f.efficacy is Some && label == "Efficacy: "@
                + range_text(f.efficacy->0, t.efficacy)
            &&& says(ChipKind::BeamDeg) <==> f.beam_deg is Some && label == "Beam: "@ + range_text(
                f.beam_deg->0,
                t.beam_deg,
            )
        }),
{
    single_is_shown(f, t, ChipKind::Text, label);
    single_is_shown(f, t, ChipKind::HasPhotometry, label);
    single_is_shown(f, t, ChipKind::Has3d, label);
    single_is_shown(f, t, ChipKind::CctK, label);
    single_is_shown(f, t, ChipKind::CriMin, label);
    single_is_shown(f, t, ChipKind::RecessedDepthMm, label);
    single_is_shown(f, t, ChipKind::FluxLm, label);
    single_is_shown(f, t, ChipKind::PowerW, label);
    single_is_shown(f, t, ChipKind::Efficacy, label);
    single_is_shown(f, t, ChipKind::BeamDeg, label);
}

proof fn single_is_shown(f: FilterView, t: RangeTexts, kind: ChipKind, label: Seq<char>)
    requires
        chips_of_kind(f, t, kind).len() <= 1,
    ensures
        chips_of(f, t).contains(ChipView { kind, value: Seq::empty(), label }) <==> chips_of_kind(
            f,
            t,
            kind,
        ).len() == 1 && chips_of_kind(f, t, kind)[0] == (ChipView {
            kind,
            value: Seq::empty(),
            label,
        }),
{
    chip_is_shown(f, t, ChipView { kind, value: Seq::empty(), label });
}

/// An end that is not bounded is shown by a star, every other one in its
/// figures.
pub proof fn open_ends_are_stars(r: KeyRange, e: Ends)
    ensures
        -0x7f80_0000 < r.lo && r.hi < 0x7f80_0000 ==> range_text(r, e) == e.lo@ + "\u{2013}"@
            + e.hi@,
        r.lo == -0x7f80_0000 && r.hi < 0x7f80_0000 ==> range_text(r, e) == "*"@ + "\u{2013}"@
            + e.hi@,
        -0x7f80_0000 < r.lo && r.hi == 0x7f80_0000 ==> range_text(r, e) == e.lo@ + "\u{2013}"@
            + "*"@,
{
}

/// Emergency lighting of any type is shown as unspecified.
pub proof fn any_emergency_is_shown(f: FilterView, t: RangeTexts)
    requires
        is_closed_list(Axis::EmergencyLightingType),
    ensures
        chips_of(f, t).contains(
            ChipView {
                kind: ChipKind::EmergencyLightingType,
                value: "(unspecified)"@,
                label: "Emergency: (unspecified)"@,
            },
        ) <==> f.has_emergency_lighting == Some(true) && f.emergency_lighting_type.len() == 0,
{
    let axis = Axis::EmergencyLightingType;
    let kind = ChipKind::EmergencyLightingType;
    let c = ChipView { kind, value: "(unspecified)"@, label: "Emergency: (unspecified)"@ };
    chip_is_shown(f, t, c);
    let typed = id_chips(kind, "Emergency"@, axis, f.emergency_lighting_type);
    let all = typed + unspecified_chips(f);
    if any_emergency(f) {
        assert(unspecified_chips(f)[0] == c);
        assert(all[typed.len() as int] == c);
    }
    if all.contains(c) && !any_emergency(f) {
        let i = choose|i: int| 0 <= i < all.len() && all[i] == c;
        assert(typed[i] == c);
        id_chips_are_valued(kind, "Emergency"@, axis, f.emergency_lighting_type);
        let k = choose|k: int|
            0 <= k < f.emergency_lighting_type.len() && value_text(
                axis,
                #[trigger] f.emergency_lighting_type[k],
            ) == Some(c.value);
        assert(axis_values(axis)[f.emergency_lighting_type[k] as int] == "(unspecified)"@);
    }
}

/// Whether taking back a kind and a value takes away one chip of that
/// kind and value, and no other.
pub open spec fn takes_one_chip(
    f: FilterView,
    kind: ChipKind,
    value: Seq<char>,
    g: FilterView,
    t: RangeTexts,
    c: ChipView,
) -> bool {
    chips_of(f, t).contains(c) && c.kind == kind && c.value == value && !mixed_emergency(f) ==> (
    chips_of(g, t).to_multiset() == chips_of(f, t).to_multiset().remove(c))
}

/// Takes back the demand of a chip: that chip is gone, once, and all
/// others stay, unless emergency lighting was demanded beside types of
/// it.
pub fn remove_chip(f: &mut Filter, kind: ChipKind, value: &str)
    ensures
        final(f)@ == chip_taken_back(old(f)@, kind, value@),
        forall|t: RangeTexts, c: ChipView| #[trigger]
            takes_one_chip(old(f)@, kind, value@, final(f)@, t, c),
        kind == ChipKind::Manufacturer && old(f)@.manufacturer == Some(seq![value@])
            ==> final(f)@.manufacturer is None,
{
    take_back(f, kind, value);
    proof {
        let before = old(f)@;
        assert forall|t: RangeTexts, c: ChipView| #[trigger]
            takes_one_chip(before, kind, value@, f@, t, c) by {
            if chips_of(before, t).contains(c) && c.kind == kind && c.value == value@
                && !mixed_emergency(before) {
                taking_back_takes_one_chip(before, t, c);
            }
        }
    }
}

/// Takes back the demand of a chip.
fn take_back(f: &mut Filter, kind: ChipKind, value: &str)
    ensures
        final(f)@ == chip_taken_back(old(f)@, kind, value@),
        list_is_closed(kind),
{
    let axis: Axis = match kind {
        ChipKind::Text => {
            f.text = None;
            return;
        },
        ChipKind::Manufacturer => {
            remove_manufacturer(f, value);
            return;
        },
        ChipKind::MountingPlace => {
            match mounting_place_from_str(value) {
                Some(p) => remove_place(&mut f.mounting_place, p),
                None => {},
            }
            return;
        },
        ChipKind::MountingType => {
            match mounting_type_from_str(value) {
                Some(t) => remove_type(&mut f.mounting_type, t),
                None => {},
            }
            return;
        },
        ChipKind::HasPhotometry => {
            f.has_photometry = None;
            return;
        },
        ChipKind::Has3d => {
            f.has_3d = None;
            return;
        },
        ChipKind::FluxLm => {
            f.flux_lm = None;
            return;
        },
        ChipKind::PowerW => {
            f.power_w = None;
            return;
        },
        ChipKind::Efficacy => {
            f.efficacy = None;
            return;
        },
        ChipKind::CctK => {
            f.cct_k = None;
            return;
        },
        ChipKind::CriMin => {
            f.cri_min = None;
            return;
        },
        ChipKind::BeamDeg => {
            f.beam_deg = None;
            return;
        },
        ChipKind::RecessedDepthMm => {
            f.recessed_depth_mm = None;
            return;
        },
        ChipKind::EmergencyLightingType => {
            if same_text(value, UNSPECIFIED_EMERGENCY) && f.emergency_lighting_type.is_empty() {
                f.has_emergency_lighting = None;
            }
            Axis::EmergencyLightingType
        },
        ChipKind::Application => Axis::Application,
        ChipKind::Label => Axis::Label,
        ChipKind::IpCode => Axis::IpCode,
        ChipKind::SafetyClass => Axis::SafetyClass,
        ChipKind::IkRating => Axis::IkRating,
        ChipKind::ProductForm => Axis::ProductForm,
        ChipKind::Adjustability => Axis::Adjustability,
        ChipKind::LightDistribution => Axis::LightDistribution,
        ChipKind::LampType => Axis::LampType,
        ChipKind::ControlGearInterface => Axis::ControlGearInterface,
    };
    remove_id(slot_mut(f, axis), axis, value);
}

} // verus!
