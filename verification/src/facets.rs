//! Facets: how many documents each value of a field would leave if it
//! were the only choice there, and the ranges that the measurements span.

use crate::doc::{
    doc_views, DocView, LuminaireDoc, MountingPlace, MountingType, VariantDoc, VariantView,
};
use crate::filter::{doc_matches, variant_matches, variant_predicate, Filter, FilterView};
use crate::ids::IdList;
use crate::tables::{value_of, value_text, Axis};
use crate::text::{
    list_has, same_text, text_before, text_lt, text_lt_asymmetric, text_lt_irreflexive,
    text_lt_total, text_lt_transitive, texts,
};
use vstd::prelude::*;

verus! {

/// Name of the bucket for variants that serve emergency lighting
/// without declaring of which type.
pub const UNSPECIFIED_EMERGENCY: &'static str = "(unspecified)";

/// A value of a field and how many documents would match if it were the
/// only choice there.
#[derive(Debug)]
pub struct FacetValueCount {
    /// The value, as displayed.
    pub value: String,
    /// How many documents have it.
    pub count: u32,
}

/// The fields that can be counted.
#[derive(Clone, Copy, PartialEq, Eq, Debug, Hash, Structural)]
pub enum FacetField {
    /// Manufacturer names.
    Manufacturer,
    /// Application values.
    Applications,
    /// Label values.
    Labels,
    /// IP codes.
    IpCode,
    /// Safety classes.
    SafetyClass,
    /// IK ratings.
    IkRating,
    /// Product forms.
    ProductForm,
    /// Adjustabilities.
    Adjustability,
    /// Mounting places by name.
    MountingPlace,
    /// Mounting types by name.
    MountingType,
    /// Light distributions.
    LightDistribution,
    /// `present` and `missing` photometric figures.
    HasPhotometry,
    /// `present` and `missing` 3D models.
    Has3d,
    /// `present` and `missing` emergency lighting.
    HasEmergencyLighting,
    /// Lamp types.
    LampType,
    /// Control gear interfaces.
    ControlGearInterface,
    /// Emergency lighting types.
    EmergencyLightingType,
}

/// Counts by field. Each list is ordered by descending count, then by
/// value.
#[derive(Debug)]
pub struct FacetCounts {
    /// Manufacturer names.
    pub manufacturer: Vec<FacetValueCount>,
    /// Application values.
    pub applications: Vec<FacetValueCount>,
    /// Label values.
    pub labels: Vec<FacetValueCount>,
    /// IP codes.
    pub ip_code: Vec<FacetValueCount>,
    /// Safety classes.
    pub safety_class: Vec<FacetValueCount>,
    /// IK ratings.
    pub ik_rating: Vec<FacetValueCount>,
    /// Product forms.
    pub product_form: Vec<FacetValueCount>,
    /// Adjustabilities.
    pub adjustability: Vec<FacetValueCount>,
    /// Mounting places by name.
    pub mounting_place: Vec<FacetValueCount>,
    /// Mounting types by name.
    pub mounting_type: Vec<FacetValueCount>,
    /// Light distributions.
    pub light_distribution: Vec<FacetValueCount>,
    /// `present` and `missing` photometric figures.
    pub has_photometry: Vec<FacetValueCount>,
    /// `present` and `missing` 3D models.
    pub has_3d: Vec<FacetValueCount>,
    /// `present` and `missing` emergency lighting.
    pub has_emergency_lighting: Vec<FacetValueCount>,
    /// Lamp types.
    pub lamp_type: Vec<FacetValueCount>,
    /// Control gear interfaces.
    pub control_gear_interfaces: Vec<FacetValueCount>,
    /// Emergency lighting types.
    pub emergency_lighting_type: Vec<FacetValueCount>,
}

impl Default for FacetCounts {
    /// No counts.
    fn default() -> (r: FacetCounts)
        ensures
            forall|field: FacetField| (#[trigger] counts_of(r, field)).len() == 0,
    {
        FacetCounts {
            manufacturer: Vec::new(),
            applications: Vec::new(),
            labels: Vec::new(),
            ip_code: Vec::new(),
            safety_class: Vec::new(),
            ik_rating: Vec::new(),
            product_form: Vec::new(),
            adjustability: Vec::new(),
            mounting_place: Vec::new(),
            mounting_type: Vec::new(),
            light_distribution: Vec::new(),
            has_photometry: Vec::new(),
            has_3d: Vec::new(),
            has_emergency_lighting: Vec::new(),
            lamp_type: Vec::new(),
            control_gear_interfaces: Vec::new(),
            emergency_lighting_type: Vec::new(),
        }
    }
}

/// The counts of one field.
pub open spec fn counts_of(c: FacetCounts, field: FacetField) -> Seq<FacetValueCount> {
    match field {
        FacetField::Manufacturer => c.manufacturer@,
        FacetField::Applications => c.applications@,
        FacetField::Labels => c.labels@,
        FacetField::IpCode => c.ip_code@,
        FacetField::SafetyClass => c.safety_class@,
        FacetField::IkRating => c.ik_rating@,
        FacetField::ProductForm => c.product_form@,
        FacetField::Adjustability => c.adjustability@,
        FacetField::MountingPlace => c.mounting_place@,
        FacetField::MountingType => c.mounting_type@,
        FacetField::LightDistribution => c.light_distribution@,
        FacetField::HasPhotometry => c.has_photometry@,
        FacetField::Has3d => c.has_3d@,
        FacetField::HasEmergencyLighting => c.has_emergency_lighting@,
        FacetField::LampType => c.lamp_type@,
        FacetField::ControlGearInterface => c.control_gear_interfaces@,
        FacetField::EmergencyLightingType => c.emergency_lighting_type@,
    }
}

/// A span of measurements, by their order keys.
#[derive(Clone, Copy, PartialEq, Eq, Debug, Structural)]
pub struct F32Bounds {
    /// Least value.
    pub min: i32,
    /// Greatest value.
    pub max: i32,
}

/// A span of colour temperatures.
#[derive(Clone, Copy, PartialEq, Eq, Debug, Structural)]
pub struct U16Bounds {
    /// Least value.
    pub min: u16,
    /// Greatest value.
    pub max: u16,
}

/// A span of depths.
#[derive(Clone, Copy, PartialEq, Eq, Debug, Structural)]
pub struct U32Bounds {
    /// Least value.
    pub min: u32,
    /// Greatest value.
    pub max: u32,
}

/// The span of each measurement; `None` where nothing has it.
#[derive(Clone, Copy, PartialEq, Eq, Debug, Structural)]
pub struct RangeBounds {
    /// Luminous flux (lm).
    pub flux_lm: Option<F32Bounds>,
    /// Electrical power (W).
    pub power_w: Option<F32Bounds>,
    /// Luminous efficacy (lm/W).
    pub efficacy: Option<F32Bounds>,
    /// Correlated colour temperature (K).
    pub cct_k: Option<U16Bounds>,
    /// Half-peak beam angle (degrees).
    pub beam_deg: Option<F32Bounds>,
    /// Depth of the recess (mm).
    pub recessed_depth_mm: Option<U32Bounds>,
}

// ---------------------------------------------------------------------
// The values that a document has
// ---------------------------------------------------------------------

/// The name of a mounting place.
pub open spec fn place_text(p: MountingPlace) -> Seq<char> {
    match p {
        MountingPlace::Ceiling => "Ceiling"@,
        MountingPlace::Wall => "Wall"@,
        MountingPlace::WorkingPlane => "WorkingPlane"@,
        MountingPlace::Ground => "Ground"@,
        MountingPlace::Unknown => "Unknown"@,
    }
}

/// The name of a mounting type.
pub open spec fn type_text(t: MountingType) -> Seq<char> {
    match t {
        MountingType::Recessed => "Recessed"@,
        MountingType::SurfaceMounted => "SurfaceMounted"@,
        MountingType::Pendant => "Pendant"@,
        MountingType::FreeStanding => "FreeStanding"@,
        MountingType::PoleTop => "PoleTop"@,
        MountingType::PoleIntegrated => "PoleIntegrated"@,
        MountingType::Unknown => "Unknown"@,
    }
}

/// The name of a presence.
pub open spec fn presence_text(present: bool) -> Seq<char> {
    if present {
        "present"@
    } else {
        "missing"@
    }
}

/// Whether an optional id stands for the value `x`.
pub open spec fn id_names(axis: Axis, id: Option<u8>, x: Seq<char>) -> bool {
    id matches Some(k) && value_text(axis, k) == Some(x)
}

/// Whether one of several ids stands for the value `x`.
pub open spec fn ids_name(axis: Axis, ids: Seq<u8>, x: Seq<char>) -> bool {
    exists|i: int| 0 <= i < ids.len() && value_text(axis, #[trigger] ids[i]) == Some(x)
}

/// Whether a variant has the value `x` in a field that variants carry.
pub open spec fn variant_has_value(v: VariantView, field: FacetField, x: Seq<char>) -> bool {
    match field {
        FacetField::MountingPlace => x == place_text(v.mounting_place),
        FacetField::MountingType => x == type_text(v.mounting_type),
        FacetField::LightDistribution => v.photometry matches Some(p) && id_names(
            Axis::LightDistribution,
            p.light_distribution,
            x,
        ),
        FacetField::HasPhotometry => x == presence_text(v.photometry is Some),
        FacetField::Has3d => x == presence_text(v.has_3d),
        FacetField::HasEmergencyLighting => x == presence_text(v.has_emergency_lighting),
        FacetField::LampType => id_names(Axis::LampType, v.lamp_type, x),
        FacetField::ControlGearInterface => ids_name(
            Axis::ControlGearInterface,
            v.control_gear_interfaces,
            x,
        ),
        FacetField::EmergencyLightingType => match v.emergency_lighting_type {
            Some(id) => value_text(Axis::EmergencyLightingType, id) == Some(x),
            None => v.has_emergency_lighting && x == UNSPECIFIED_EMERGENCY@,
        },
        _ => false,
    }
}

/// Whether a document has the value `x` in a field: itself or, in a field
/// that variants carry, by a variant that meets the filter.
pub open spec fn doc_has_value(
    f: FilterView,
    d: DocView,
    field: FacetField,
    x: Seq<char>,
) -> bool {
    match field {
        FacetField::Manufacturer => d.manufacturer.len() > 0 && x == d.manufacturer,
        FacetField::Applications => ids_name(Axis::Application, d.applications, x),
        FacetField::Labels => ids_name(Axis::Label, d.labels, x),
        FacetField::IpCode => id_names(Axis::IpCode, d.ip_code, x),
        FacetField::SafetyClass => id_names(Axis::SafetyClass, d.safety_class, x),
        FacetField::IkRating => id_names(Axis::IkRating, d.ik_rating, x),
        FacetField::ProductForm => id_names(Axis::ProductForm, d.product_form, x),
        FacetField::Adjustability => ids_name(Axis::Adjustability, d.adjustability, x),
        _ => exists|i: int|
            0 <= i < d.variants.len() && variant_counts(f, #[trigger] d.variants[i], field, x),
    }
}

/// Whether a variant meets the filter and has the value `x` in a field
/// that variants carry.
pub open spec fn variant_counts(
    f: FilterView,
    v: VariantView,
    field: FacetField,
    x: Seq<char>,
) -> bool {
    variant_matches(f, v) && variant_has_value(v, field, x)
}

/// How many of the documents match the filter and have the value there.
pub open spec fn facet_count(
    docs: Seq<DocView>,
    f: FilterView,
    field: FacetField,
    x: Seq<char>,
) -> nat
    decreases docs.len(),
{
    if docs.len() == 0 {
        0
    } else {
        facet_count(docs.drop_last(), f, field, x) + if doc_matches(f, docs.last())
            && doc_has_value(f, docs.last(), field, x) {
            1nat
        } else {
            0
        }
    }
}

/// `f` with the given field asking nothing.
pub open spec fn relaxed(f: FilterView, field: FacetField) -> FilterView {
    match field {
        FacetField::Manufacturer => FilterView { manufacturer: None, ..f },
        FacetField::Applications => FilterView { applications: Seq::empty(), ..f },
        FacetField::Labels => FilterView { labels: Seq::empty(), ..f },
        FacetField::IpCode => FilterView { ip_code: Seq::empty(), ..f },
        FacetField::SafetyClass => FilterView { safety_class: Seq::empty(), ..f },
        FacetField::IkRating => FilterView { ik_rating: Seq::empty(), ..f },
        FacetField::ProductForm => FilterView { product_form: Seq::empty(), ..f },
        FacetField::Adjustability => FilterView { adjustability: Seq::empty(), ..f },
        FacetField::MountingPlace => FilterView { mounting_place: Seq::empty(), ..f },
        FacetField::MountingType => FilterView { mounting_type: Seq::empty(), ..f },
        FacetField::LightDistribution => FilterView { light_distribution: Seq::empty(), ..f },
        FacetField::HasPhotometry => FilterView { has_photometry: None, ..f },
        FacetField::Has3d => FilterView { has_3d: None, ..f },
        FacetField::HasEmergencyLighting => FilterView { has_emergency_lighting: None, ..f },
        FacetField::LampType => FilterView { lamp_type: Seq::empty(), ..f },
        FacetField::ControlGearInterface => FilterView { control_gear_interfaces: Seq::empty(), ..f },
        FacetField::EmergencyLightingType => FilterView { emergency_lighting_type: Seq::empty(), ..f },
    }
}

/// Whether `a` is listed before `b`: by descending count, then by value.
pub open spec fn listed_before(a: FacetValueCount, b: FacetValueCount) -> bool {
    a.count > b.count || (a.count == b.count && text_lt(a.value@, b.value@))
}

/// Whether every entry is listed before those that follow it.
pub open spec fn in_listed_order(s: Seq<FacetValueCount>) -> bool {
    forall|i: int, j: int| 0 <= i < j < s.len() ==> listed_before(#[trigger] s[i], #[trigger] s[j])
}

/// Whether the entries of `s` are the values of a field that some
/// matching document has, each with the number of those documents.
pub open spec fn counts_exactly(
    s: Seq<FacetValueCount>,
    docs: Seq<DocView>,
    f: FilterView,
    field: FacetField,
) -> bool {
    &&& forall|i: int|
        0 <= i < s.len() ==> (#[trigger] s[i]).count > 0 && s[i].count == facet_count(
            docs,
            f,
            field,
            s[i].value@,
        )
    &&& forall|x: Seq<char>| #[trigger]
        facet_count(docs, f, field, x) > 0 ==> exists|i: int|
            0 <= i < s.len() && (#[trigger] s[i]).value@ == x
}

/// Whether `s` is the count list of a field under an already relaxed
/// filter: exact, and in listed order.
pub open spec fn facet_list(
    s: Seq<FacetValueCount>,
    docs: Seq<DocView>,
    f: FilterView,
    field: FacetField,
) -> bool {
    in_listed_order(s) && counts_exactly(s, docs, f, field)
}

// ---------------------------------------------------------------------
// Laws
// ---------------------------------------------------------------------

/// Relaxing a field widens a filter: what matches still matches.
pub proof fn relaxing_widens(f: FilterView, field: FacetField, d: DocView)
    requires
        doc_matches(f, d),
    ensures
        doc_matches(relaxed(f, field), d),
{
    let r = relaxed(f, field);
    if variant_predicate(f) {
        let i = choose|i: int|
            0 <= i < d.variants.len() && variant_matches(f, #[trigger] d.variants[i]);
        assert(variant_matches(r, d.variants[i]));
    }
}

/// Relaxing a field twice does no more than relaxing it once.
pub proof fn relaxing_is_idempotent(f: FilterView, field: FacetField)
    ensures
        relaxed(relaxed(f, field), field) == relaxed(f, field),
{
}

/// No value is counted more often than there are documents.
pub proof fn facet_count_bounded(docs: Seq<DocView>, f: FilterView, field: FacetField, x: Seq<char>)
    ensures
        facet_count(docs, f, field, x) <= docs.len(),
    decreases docs.len(),
{
    if docs.len() > 0 {
        facet_count_bounded(docs.drop_last(), f, field, x);
    }
}

/// Two count lists of the same field over the same documents agree.
pub proof fn facet_list_unique(
    a: Seq<FacetValueCount>,
    b: Seq<FacetValueCount>,
    docs: Seq<DocView>,
    f: FilterView,
    field: FacetField,
)
    requires
        facet_list(a, docs, f, field),
        facet_list(b, docs, f, field),
    ensures
        a.len() == b.len(),
        forall|i: int|
            0 <= i < a.len() ==> (#[trigger] a[i]).value@ == b[i].value@ && a[i].count
                == b[i].count,
{
    facet_list_prefix(a, b, docs, f, field, a.len() as int);
    facet_list_prefix(b, a, docs, f, field, b.len() as int);
}

/// The first `n` entries of one count list stand in the other at the
/// same places.
proof fn facet_list_prefix(
    a: Seq<FacetValueCount>,
    b: Seq<FacetValueCount>,
    docs: Seq<DocView>,
    f: FilterView,
    field: FacetField,
    n: int,
)
    requires
        facet_list(a, docs, f, field),
        facet_list(b, docs, f, field),
        0 <= n <= a.len(),
    ensures
        n <= b.len(),
        forall|i: int|
            0 <= i < n ==> (#[trigger] a[i]).value@ == b[i].value@ && a[i].count == b[i].count,
    decreases n,
{
    if n > 0 {
        facet_list_prefix(a, b, docs, f, field, n - 1);
        let e = a[n - 1];
        assert(facet_count(docs, f, field, e.value@) > 0);
        let j = choose|j: int| 0 <= j < b.len() && (#[trigger] b[j]).value@ == e.value@;
        assert(b[j].count == e.count);
        if j < n - 1 {
            assert(a[j].value@ == b[j].value@);
            assert(listed_before(a[j], a[n - 1]));
            text_lt_irreflexive(e.value@);
            assert(false);
        }
        if j > n - 1 {
            let g = b[n - 1];
            assert(facet_count(docs, f, field, g.value@) > 0);
            let k = choose|k: int| 0 <= k < a.len() && (#[trigger] a[k]).value@ == g.value@;
            assert(a[k].count == g.count);
            assert(listed_before(b[n - 1], b[j]));
            if k < n - 1 {
                assert(a[k].value@ == b[k].value@);
                assert(listed_before(b[k], b[n - 1]));
                text_lt_irreflexive(g.value@);
                assert(false);
            }
            if k == n - 1 {
                text_lt_irreflexive(g.value@);
                assert(false);
            }
            assert(listed_before(a[n - 1], a[k]));
            if e.count == g.count {
                text_lt_asymmetric(e.value@, g.value@);
            }
            assert(false);
        }
    }
}

/// In a count list a greater count stands before a smaller one, and of
/// equal counts the value that comes first in the order of texts. No
/// value stands there twice.
pub proof fn greater_counts_stand_first(
    s: Seq<FacetValueCount>,
    docs: Seq<DocView>,
    f: FilterView,
    field: FacetField,
    i: int,
    j: int,
)
    requires
        facet_list(s, docs, f, field),
        0 <= i < j < s.len(),
    ensures
        s[i].count >= s[j].count,
        s[i].count == s[j].count ==> text_lt(s[i].value@, s[j].value@),
        s[i].value@ != s[j].value@,
{
    assert(listed_before(s[i], s[j]));
    text_lt_irreflexive(s[i].value@);
}

/// A value stands in a count list exactly if some document that matches
/// has it.
pub proof fn counted_values_are_listed(
    s: Seq<FacetValueCount>,
    docs: Seq<DocView>,
    f: FilterView,
    field: FacetField,
    x: Seq<char>,
)
    requires
        facet_list(s, docs, f, field),
    ensures
        (exists|i: int| 0 <= i < s.len() && (#[trigger] s[i]).value@ == x) <==> exists|j: int|
            0 <= j < docs.len() && doc_matches(f, #[trigger] docs[j]) && doc_has_value(
                f,
                docs[j],
                field,
                x,
            ),
{
    counted_means_some_doc(docs, f, field, x);
    if exists|i: int| 0 <= i < s.len() && (#[trigger] s[i]).value@ == x {
        let i = choose|i: int| 0 <= i < s.len() && (#[trigger] s[i]).value@ == x;
        assert(facet_count(docs, f, field, s[i].value@) > 0);
    }
}

proof fn counted_means_some_doc(docs: Seq<DocView>, f: FilterView, field: FacetField, x: Seq<char>)
    ensures
        facet_count(docs, f, field, x) > 0 <==> exists|j: int|
            0 <= j < docs.len() && doc_matches(f, #[trigger] docs[j]) && doc_has_value(
                f,
                docs[j],
                field,
                x,
            ),
    decreases docs.len(),
{
    if docs.len() > 0 {
        let front = docs.drop_last();
        counted_means_some_doc(front, f, field, x);
        if facet_count(front, f, field, x) > 0 {
            let j = choose|j: int|
                0 <= j < front.len() && doc_matches(f, #[trigger] front[j]) && doc_has_value(
                    f,
                    front[j],
                    field,
                    x,
                );
            assert(docs[j] == front[j]);
        } else if facet_count(docs, f, field, x) > 0 {
            assert(doc_matches(f, docs[docs.len() - 1]));
        }
        if exists|j: int|
            0 <= j < docs.len() && doc_matches(f, #[trigger] docs[j]) && doc_has_value(
                f,
                docs[j],
                field,
                x,
            ) {
            let j = choose|j: int|
                0 <= j < docs.len() && doc_matches(f, #[trigger] docs[j]) && doc_has_value(
                    f,
                    docs[j],
                    field,
                    x,
                );
            if j < front.len() {
                assert(front[j] == docs[j]);
            }
        }
    }
}

/// A variant has the values that it declares, each in its own field: the
/// name of its mounting, whether something is there, and the values of
/// its ids.
pub proof fn variants_have_their_values(v: VariantView, x: Seq<char>)
    ensures
        variant_has_value(v, FacetField::MountingPlace, x) <==> x == place_text(v.mounting_place),
        variant_has_value(v, FacetField::MountingType, x) <==> x == type_text(v.mounting_type),
        variant_has_value(v, FacetField::HasPhotometry, "present"@) <==> v.photometry is Some,
        variant_has_value(v, FacetField::HasPhotometry, "missing"@) <==> v.photometry is None,
        variant_has_value(v, FacetField::Has3d, "present"@) <==> v.has_3d,
        variant_has_value(v, FacetField::Has3d, "missing"@) <==> !v.has_3d,
        variant_has_value(v, FacetField::HasEmergencyLighting, "present"@)
            <==> v.has_emergency_lighting,
        variant_has_value(v, FacetField::HasEmergencyLighting, "missing"@)
            <==> !v.has_emergency_lighting,
        variant_has_value(v, FacetField::LampType, x) <==> v.lamp_type is Some && value_text(
            Axis::LampType,
            v.lamp_type->0,
        ) == Some(x),
        variant_has_value(v, FacetField::LightDistribution, x) <==> v.photometry is Some
            && v.photometry->0.light_distribution is Some && value_text(
            Axis::LightDistribution,
            v.photometry->0.light_distribution->0,
        ) == Some(x),
        variant_has_value(v, FacetField::ControlGearInterface, x) <==> exists|i: int|
            0 <= i < v.control_gear_interfaces.len() && value_text(
                Axis::ControlGearInterface,
                #[trigger] v.control_gear_interfaces[i],
            ) == Some(x),
        v.emergency_lighting_type is Some ==> (variant_has_value(
            v,
            FacetField::EmergencyLightingType,
            x,
        ) <==> value_text(Axis::EmergencyLightingType, v.emergency_lighting_type->0) == Some(x)),
{
    reveal_strlit("present");
    reveal_strlit("missing");
    assert("present"@[0] != "missing"@[0]);
}

/// A document has the values that it declares, each in its own field.
pub proof fn documents_have_their_values(f: FilterView, d: DocView, x: Seq<char>)
    ensures
        doc_has_value(f, d, FacetField::Manufacturer, x) <==> x == d.manufacturer && x.len() > 0,
        doc_has_value(f, d, FacetField::IpCode, x) <==> d.ip_code is Some && value_text(
            Axis::IpCode,
            d.ip_code->0,
        ) == Some(x),
        doc_has_value(f, d, FacetField::SafetyClass, x) <==> d.safety_class is Some && value_text(
            Axis::SafetyClass,
            d.safety_class->0,
        ) == Some(x),
        doc_has_value(f, d, FacetField::IkRating, x) <==> d.ik_rating is Some && value_text(
            Axis::IkRating,
            d.ik_rating->0,
        ) == Some(x),
        doc_has_value(f, d, FacetField::ProductForm, x) <==> d.product_form is Some && value_text(
            Axis::ProductForm,
            d.product_form->0,
        ) == Some(x),
        doc_has_value(f, d, FacetField::Applications, x) <==> exists|i: int|
            0 <= i < d.applications.len() && value_text(
                Axis::Application,
                #[trigger] d.applications[i],
            ) == Some(x),
        doc_has_value(f, d, FacetField::Labels, x) <==> exists|i: int|
            0 <= i < d.labels.len() && value_text(Axis::Label, #[trigger] d.labels[i]) == Some(x),
        doc_has_value(f, d, FacetField::Adjustability, x) <==> exists|i: int|
            0 <= i < d.adjustability.len() && value_text(
                Axis::Adjustability,
                #[trigger] d.adjustability[i],
            ) == Some(x),
{
}

/// The bucket of emergency lighting without a type holds the documents
/// with a variant that serves emergency lighting, declares no type of it
/// and meets the filter.
pub proof fn bucket_holds_untyped_emergency(f: FilterView, d: DocView)
    requires
        crate::tables::is_closed_list(Axis::EmergencyLightingType),
    ensures
        doc_has_value(f, d, FacetField::EmergencyLightingType, "(unspecified)"@)
            <==> exists|i: int|
            0 <= i < d.variants.len() && variant_matches(f, #[trigger] d.variants[i])
                && d.variants[i].has_emergency_lighting
                && d.variants[i].emergency_lighting_type is None,
{
    let field = FacetField::EmergencyLightingType;
    let axis = Axis::EmergencyLightingType;
    assert forall|i: int| 0 <= i < d.variants.len() implies (variant_counts(
        f,
        #[trigger] d.variants[i],
        field,
        "(unspecified)"@,
    ) <==> variant_matches(f, d.variants[i]) && d.variants[i].has_emergency_lighting
        && d.variants[i].emergency_lighting_type is None) by {
        if let Some(id) = d.variants[i].emergency_lighting_type {
            if value_text(axis, id) == Some("(unspecified)"@) {
                assert(crate::tables::axis_values(axis)[id as int] == "(unspecified)"@);
            }
        }
    }
}

// ---------------------------------------------------------------------
// Collecting the values of a document
// ---------------------------------------------------------------------

/// The name of a mounting place.
pub fn place_name(p: MountingPlace) -> (r: &'static str)
    ensures
        r@ == place_text(p),
{
    match p {
        MountingPlace::Ceiling => "Ceiling",
        MountingPlace::Wall => "Wall",
        MountingPlace::WorkingPlane => "WorkingPlane",
        MountingPlace::Ground => "Ground",
        MountingPlace::Unknown => "Unknown",
    }
}

/// The name of a mounting type.
pub fn mounting_name(t: MountingType) -> (r: &'static str)
    ensures
        r@ == type_text(t),
{
    match t {
        MountingType::Recessed => "Recessed",
        MountingType::SurfaceMounted => "SurfaceMounted",
        MountingType::Pendant => "Pendant",
        MountingType::FreeStanding => "FreeStanding",
        MountingType::PoleTop => "PoleTop",
        MountingType::PoleIntegrated => "PoleIntegrated",
        MountingType::Unknown => "Unknown",
    }
}

/// The name of a presence.
pub fn presence_name(present: bool) -> (r: &'static str)
    ensures
        r@ == presence_text(present),
{
    if present {
        "present"
    } else {
        "missing"
    }
}

/// Adds the text `s` to a list of distinct texts.
fn note_text(seen: &mut Vec<String>, s: &str)
    requires
        texts(old(seen)@).no_duplicates(),
    ensures
        texts(final(seen)@).no_duplicates(),
        forall|x: Seq<char>| #[trigger]
            texts(final(seen)@).contains(x) <==> texts(old(seen)@).contains(x) || x == s@,
{
    if !list_has(seen, s) {
        let ghost before = texts(seen@);
        seen.push(crate::text::owned(s));
        proof {
            let after = texts(seen@);
            assert(after =~= before.push(s@));
            assert forall|x: Seq<char>| #[trigger] after.contains(x) <==> before.contains(x) || x == s@ by {
                if before.contains(x) {
                    let k = choose|k: int| 0 <= k < before.len() && before[k] == x;
                    assert(after[k] == x);
                }
                if x == s@ {
                    assert(after[before.len() as int] == x);
                }
            }
        }
    }
}

/// Adds the value that an optional id stands for.
fn note_id(seen: &mut Vec<String>, axis: Axis, id: Option<u8>)
    requires
        texts(old(seen)@).no_duplicates(),
    ensures
        texts(final(seen)@).no_duplicates(),
        forall|x: Seq<char>| #[trigger]
            texts(final(seen)@).contains(x) <==> texts(old(seen)@).contains(x) || id_names(
                axis,
                id,
                x,
            ),
{
    if let Some(k) = id {
        if let Some(s) = value_of(axis, k) {
            note_text(seen, s);
        }
    }
}

/// Adds the values that several ids stand for.
fn note_ids(seen: &mut Vec<String>, axis: Axis, ids: &IdList)
    requires
        texts(old(seen)@).no_duplicates(),
    ensures
        texts(final(seen)@).no_duplicates(),
        forall|x: Seq<char>| #[trigger]
            texts(final(seen)@).contains(x) <==> texts(old(seen)@).contains(x) || ids_name(
                axis,
                ids@,
                x,
            ),
{
    let ghost start = texts(seen@);
    let mut i: usize = 0;
    while i < ids.len()
        invariant
            i <= ids@.len(),
            texts(seen@).no_duplicates(),
            forall|x: Seq<char>| #[trigger]
                texts(seen@).contains(x) <==> start.contains(x) || exists|j: int|
                    0 <= j < i && value_text(axis, #[trigger] ids@[j]) == Some(x),
        decreases ids@.len() - i,
    {
        let ghost before = texts(seen@);
        note_id(seen, axis, Some(ids.get(i)));
        proof {
            assert forall|x: Seq<char>| #[trigger]
                texts(seen@).contains(x) <==> start.contains(x) || exists|j: int|
                    0 <= j < i + 1 && value_text(axis, #[trigger] ids@[j]) == Some(x) by {
                if exists|j: int|
                    0 <= j < i + 1 && value_text(axis, #[trigger] ids@[j]) == Some(x) {
                    let j = choose|j: int|
                        0 <= j < i + 1 && value_text(axis, #[trigger] ids@[j]) == Some(x);
                    if j < i {
                        assert(before.contains(x));
                    }
                }
                if texts(seen@).contains(x) && !before.contains(x) {
                    assert(value_text(axis, ids@[i as int]) == Some(x));
                }
            }
        }
        i += 1;
    }
}

/// Adds the values that a variant has in a field that variants carry.
fn note_variant(seen: &mut Vec<String>, v: &VariantDoc, field: FacetField)
    requires
        texts(old(seen)@).no_duplicates(),
    ensures
        texts(final(seen)@).no_duplicates(),
        forall|x: Seq<char>| #[trigger]
            texts(final(seen)@).contains(x) <==> texts(old(seen)@).contains(x)
                || variant_has_value(v@, field, x),
{
    match field {
        FacetField::MountingPlace => note_text(seen, place_name(v.mounting_place)),
        FacetField::MountingType => note_text(seen, mounting_name(v.mounting_type)),
        FacetField::LightDistribution => match &v.photometry {
            Some(p) => note_id(seen, Axis::LightDistribution, p.light_distribution),
            None => {},
        },
        FacetField::HasPhotometry => note_text(seen, presence_name(v.photometry.is_some())),
        FacetField::Has3d => note_text(seen, presence_name(v.has_3d)),
        FacetField::HasEmergencyLighting => note_text(
            seen,
            presence_name(v.has_emergency_lighting),
        ),
        FacetField::LampType => note_id(seen, Axis::LampType, v.lamp_type),
        FacetField::ControlGearInterface => note_ids(
            seen,
            Axis::ControlGearInterface,
            &v.control_gear_interfaces,
        ),
        FacetField::EmergencyLightingType => {
            if v.emergency_lighting_type.is_some() {
                note_id(seen, Axis::EmergencyLightingType, v.emergency_lighting_type)
            } else if v.has_emergency_lighting {
                note_text(seen, UNSPECIFIED_EMERGENCY)
            }
        },
        _ => {},
    }
}

/// The values that a document has in a field, each once.
pub fn doc_values(filter: &Filter, doc: &LuminaireDoc, field: FacetField) -> (r: Vec<String>)
    ensures
        texts(r@).no_duplicates(),
        forall|x: Seq<char>| #[trigger]
            texts(r@).contains(x) <==> doc_has_value(filter@, doc@, field, x),
{
    let mut seen: Vec<String> = Vec::new();
    proof {
        assert(texts(seen@) =~= Seq::empty());
    }
    match field {
        FacetField::Manufacturer => {
            if doc.manufacturer.as_str().is_empty() {
                return seen;
            }
            note_text(&mut seen, doc.manufacturer.as_str());
        },
        FacetField::Applications => note_ids(&mut seen, Axis::Application, &doc.applications),
        FacetField::Labels => note_ids(&mut seen, Axis::Label, &doc.labels),
        FacetField::IpCode => note_id(&mut seen, Axis::IpCode, doc.ip_code),
        FacetField::SafetyClass => note_id(&mut seen, Axis::SafetyClass, doc.safety_class),
        FacetField::IkRating => note_id(&mut seen, Axis::IkRating, doc.ik_rating),
        FacetField::ProductForm => note_id(&mut seen, Axis::ProductForm, doc.product_form),
        FacetField::Adjustability => note_ids(
            &mut seen,
            Axis::Adjustability,
            &doc.adjustability,
        ),
        _ => {
            let mut i: usize = 0;
            while i < doc.variants.len()
                invariant
                    i <= doc.variants@.len(),
                    texts(seen@).no_duplicates(),
                    forall|x: Seq<char>| #[trigger]
                        texts(seen@).contains(x) <==> exists|j: int|
                            0 <= j < i && variant_counts(
                                filter@,
                                #[trigger] doc@.variants[j],
                                field,
                                x,
                            ),
                decreases doc.variants@.len() - i,
            {
                let ghost before = texts(seen@);
                if filter.matches_variant(&doc.variants[i]) {
                    note_variant(&mut seen, &doc.variants[i], field);
                }
                proof {
                    assert(doc@.variants[i as int] == doc.variants@[i as int]@);
                    assert forall|x: Seq<char>| #[trigger]
                        texts(seen@).contains(x) <==> exists|j: int|
                            0 <= j < i + 1 && variant_counts(
                                filter@,
                                #[trigger] doc@.variants[j],
                                field,
                                x,
                            ) by {
                        if exists|j: int|
                            0 <= j < i + 1 && variant_counts(
                                filter@,
                                #[trigger] doc@.variants[j],
                                field,
                                x,
                            ) {
                            let j = choose|j: int|
                                0 <= j < i + 1 && variant_counts(
                                filter@,
                                #[trigger] doc@.variants[j],
                                    field,
                                    x,
                                );
                            if j < i {
                                assert(before.contains(x));
                            }
                        }
                        if texts(seen@).contains(x) && !before.contains(x) {
                            assert(variant_counts(filter@, doc@.variants[i as int], field, x));
                        }
                    }
                }
                i += 1;
            }
        },
    }
    seen
}

// ---------------------------------------------------------------------
// Tallies
// ---------------------------------------------------------------------

/// How often `x` was counted.
pub open spec fn tally(s: Seq<FacetValueCount>, x: Seq<char>) -> nat
    decreases s.len(),
{
    if s.len() == 0 {
        0
    } else {
        tally(s.drop_last(), x) + if s.last().value@ == x {
            s.last().count as nat
        } else {
            0
        }
    }
}

/// Whether no value has two entries and none has a count of zero.
pub open spec fn is_tally(s: Seq<FacetValueCount>) -> bool {
    &&& forall|i: int, j: int|
        0 <= i < j < s.len() ==> (#[trigger] s[i]).value@ != (#[trigger] s[j]).value@
    &&& forall|i: int| 0 <= i < s.len() ==> (#[trigger] s[i]).count > 0
}

/// A value without an entry was not counted.
proof fn tally_absent(s: Seq<FacetValueCount>, x: Seq<char>)
    requires
        forall|i: int| 0 <= i < s.len() ==> (#[trigger] s[i]).value@ != x,
    ensures
        tally(s, x) == 0,
    decreases s.len(),
{
    if s.len() > 0 {
        assert forall|i: int| 0 <= i < s.drop_last().len() implies (
        #[trigger] s.drop_last()[i]).value@ != x by {
            assert(s.drop_last()[i] == s[i]);
        }
        tally_absent(s.drop_last(), x);
    }
}

/// A value that was counted has an entry.
proof fn tally_present(s: Seq<FacetValueCount>, x: Seq<char>)
    requires
        tally(s, x) > 0,
    ensures
        exists|i: int| 0 <= i < s.len() && (#[trigger] s[i]).value@ == x,
{
    if forall|i: int| 0 <= i < s.len() ==> (#[trigger] s[i]).value@ != x {
        tally_absent(s, x);
    }
}

/// The entry of a value holds its count.
proof fn tally_entry(s: Seq<FacetValueCount>, i: int)
    requires
        is_tally(s),
        0 <= i < s.len(),
    ensures
        tally(s, s[i].value@) == s[i].count,
    decreases s.len(),
{
    let front = s.drop_last();
    assert forall|a: int, b: int| 0 <= a < b < front.len() implies (#[trigger] front[a]).value@ != (
    #[trigger] front[b]).value@ by {
        assert(front[a] == s[a]);
        assert(front[b] == s[b]);
    }
    assert forall|a: int| 0 <= a < front.len() implies (#[trigger] front[a]).count > 0 by {
        assert(front[a] == s[a]);
    }
    if i == s.len() - 1 {
        assert forall|a: int| 0 <= a < front.len() implies (#[trigger] front[a]).value@
            != s[i].value@ by {
            assert(front[a] == s[a]);
        }
        tally_absent(front, s[i].value@);
    } else {
        tally_entry(front, i);
        assert(front[i] == s[i]);
    }
}

/// Setting aside an entry's count changes only that value's tally.
proof fn tally_update(s: Seq<FacetValueCount>, i: int, e: FacetValueCount, x: Seq<char>)
    requires
        0 <= i < s.len(),
        e.value@ == s[i].value@,
    ensures
        tally(s.update(i, e), x) == tally(s, x) + if x == e.value@ {
            e.count - s[i].count
        } else {
            0
        },
    decreases s.len(),
{
    let t = s.update(i, e);
    if i == s.len() - 1 {
        assert(t.drop_last() =~= s.drop_last());
    } else {
        assert(t.drop_last() =~= s.drop_last().update(i, e));
        tally_update(s.drop_last(), i, e, x);
    }
}

/// An entry that comes in adds its count to its value's tally.
proof fn tally_insert(s: Seq<FacetValueCount>, i: int, e: FacetValueCount, x: Seq<char>)
    requires
        0 <= i <= s.len(),
    ensures
        tally(s.insert(i, e), x) == tally(s, x) + if x == e.value@ {
            e.count as int
        } else {
            0
        },
    decreases s.len(),
{
    let t = s.insert(i, e);
    if i == s.len() {
        assert(t.drop_last() =~= s);
    } else {
        assert(t.drop_last() =~= s.drop_last().insert(i, e));
        assert(t.last() == s.last());
        tally_insert(s.drop_last(), i, e, x);
    }
}

/// Counts `x` once more.
fn count_value(counts: &mut Vec<FacetValueCount>, x: String)
    requires
        is_tally(old(counts)@),
        tally(old(counts)@, x@) < u32::MAX,
    ensures
        is_tally(final(counts)@),
        forall|y: Seq<char>| #[trigger]
            tally(final(counts)@, y) == tally(old(counts)@, y) + if y == x@ {
                1nat
            } else {
                0
            },
{
    let ghost before = counts@;
    let mut i: usize = 0;
    while i < counts.len()
        invariant
            i <= counts@.len(),
            counts@ == before,
            before == old(counts)@,
            is_tally(before),
            tally(before, x@) < u32::MAX,
            forall|j: int| 0 <= j < i ==> (#[trigger] before[j]).value@ != x@,
        decreases counts@.len() - i,
    {
        if same_text(counts[i].value.as_str(), x.as_str()) {
            proof {
                tally_entry(before, i as int);
            }
            let n: u32 = counts[i].count;
            let e: FacetValueCount = FacetValueCount { value: x, count: n + 1 };
            proof {
                assert forall|y: Seq<char>|
                    #[trigger] tally(before.update(i as int, e), y) == tally(before, y) + if y
                        == x@ {
                        1nat
                    } else {
                        0
                    } by {
                    tally_update(before, i as int, e, y);
                }
            }
            counts.set(i, e);
            return;
        }
        i += 1;
    }
    let e: FacetValueCount = FacetValueCount { value: x, count: 1 };
    proof {
        assert forall|y: Seq<char>|
            #[trigger] tally(before.push(e), y) == tally(before, y) + if y == x@ {
                1nat
            } else {
                0
            } by {
            assert(before.push(e).drop_last() =~= before);
        }
    }
    counts.push(e);
}

/// Counts every value that the document has in the field once more.
pub fn emit_doc_values(
    filter: &Filter,
    doc: &LuminaireDoc,
    field: FacetField,
    counts: &mut Vec<FacetValueCount>,
)
    requires
        is_tally(old(counts)@),
        forall|x: Seq<char>| #[trigger] tally(old(counts)@, x) < u32::MAX,
    ensures
        is_tally(final(counts)@),
        forall|x: Seq<char>| #[trigger]
            tally(final(counts)@, x) == tally(old(counts)@, x) + if doc_has_value(
                filter@,
                doc@,
                field,
                x,
            ) {
                1nat
            } else {
                0
            },
{
    let mut values: Vec<String> = doc_values(filter, doc, field);
    let ghost all = texts(values@);
    let ghost before = counts@;
    while values.len() > 0
        invariant
            is_tally(counts@),
            all.no_duplicates(),
            texts(values@).len() <= all.len(),
            texts(values@) == all.take(values@.len() as int),
            forall|x: Seq<char>| #[trigger] tally(before, x) < u32::MAX,
            forall|x: Seq<char>| #[trigger]
                tally(counts@, x) == tally(before, x) + if all.skip(
                    values@.len() as int,
                ).contains(x) {
                    1nat
                } else {
                    0
                },
        decreases values.len(),
    {
        let ghost n = values@.len() as int;
        let ghost mid = counts@;
        let ghost s = texts(values@)[n - 1];
        let value: String = match values.pop() {
            Some(s) => s,
            None => return,
        };
        proof {
            assert(value@ == s && s == all[n - 1]);
            assert(texts(values@) =~= all.take(n - 1));
            if all.skip(n).contains(s) {
                let k = choose|k: int| 0 <= k < all.skip(n).len() && all.skip(n)[k] == s;
                assert(all[n + k] == all[n - 1]);
            }
        }
        count_value(counts, value);
        proof {
            assert forall|x: Seq<char>| #[trigger]
                tally(counts@, x) == tally(before, x) + if all.skip(n - 1).contains(x) {
                    1nat
                } else {
                    0
                } by {
                assert(all.skip(n - 1) =~= seq![s] + all.skip(n));
                if all.skip(n).contains(x) {
                    let k = choose|k: int| 0 <= k < all.skip(n).len() && all.skip(n)[k] == x;
                    assert(all.skip(n - 1)[k + 1] == x);
                }
                if x == s {
                    assert(all.skip(n - 1)[0] == x);
                }
                if all.skip(n - 1).contains(x) && x != s {
                    let tail = all.skip(n - 1);
                    let k = choose|k: int| 0 <= k < tail.len() && tail[k] == x;
                    assert(all.skip(n)[k - 1] == x);
                }
                assert(tally(mid, x) == tally(before, x) + if all.skip(n).contains(x) {
                    1nat
                } else {
                    0
                });
            }
        }
    }
    proof {
        assert(all.skip(0) =~= all);
    }
}

/// Whether `a` is listed before `b`.
fn lists_before(a: &FacetValueCount, b: &FacetValueCount) -> (r: bool)
    ensures
        r == listed_before(*a, *b),
{
    if a.count != b.count {
        a.count > b.count
    } else {
        text_before(a.value.as_str(), b.value.as_str())
    }
}

/// Of two entries for different values one is listed before the other.
proof fn listed_total(a: FacetValueCount, b: FacetValueCount)
    requires
        a.value@ != b.value@,
    ensures
        listed_before(a, b) || listed_before(b, a),
{
    text_lt_total(a.value@, b.value@);
}

/// The order of entries is transitive.
proof fn listed_transitive(a: FacetValueCount, b: FacetValueCount, c: FacetValueCount)
    requires
        listed_before(a, b),
        listed_before(b, c),
    ensures
        listed_before(a, c),
{
    if a.count == b.count && b.count == c.count {
        text_lt_transitive(a.value@, b.value@, c.value@);
    }
}

/// Puts an entry for a new value at its place.
fn insert_listed(out: &mut Vec<FacetValueCount>, e: FacetValueCount)
    requires
        in_listed_order(old(out)@),
        forall|i: int| 0 <= i < old(out)@.len() ==> (#[trigger] old(out)@[i]).value@ != e.value@,
    ensures
        in_listed_order(final(out)@),
        exists|at: int|
            0 <= at <= old(out)@.len() && final(out)@ == #[trigger] old(out)@.insert(at, e),
{
    let ghost before = out@;
    let mut i: usize = 0;
    while i < out.len() && lists_before(&out[i], &e)
        invariant
            i <= out@.len(),
            out@ == before,
            forall|j: int| 0 <= j < i ==> listed_before(#[trigger] before[j], e),
        decreases out@.len() - i,
    {
        i += 1;
    }
    out.insert(i, e);
    proof {
        let s = before.insert(i as int, e);
        assert forall|a: int, b: int| 0 <= a < b < s.len() implies listed_before(
            #[trigger] s[a],
            #[trigger] s[b],
        ) by {
            let at = i as int;
            if b < at {
                assert(s[a] == before[a] && s[b] == before[b]);
            } else if b == at {
                assert(s[a] == before[a]);
            } else {
                assert(s[b] == before[b - 1]);
                if at < before.len() {
                    listed_total(before[at], e);
                    if at < b - 1 {
                        assert(listed_before(before[at], before[b - 1]));
                        listed_transitive(e, before[at], before[b - 1]);
                    }
                }
                if a < at {
                    assert(s[a] == before[a]);
                } else if a > at {
                    assert(s[a] == before[a - 1]);
                }
            }
        }
    }
}

/// The entries of a tally in listed order.
pub fn sort_listed(counts: Vec<FacetValueCount>) -> (out: Vec<FacetValueCount>)
    requires
        is_tally(counts@),
    ensures
        in_listed_order(out@),
        is_tally(out@),
        forall|x: Seq<char>| #[trigger] tally(out@, x) == tally(counts@, x),
{
    let ghost all = counts@;
    let mut rest: Vec<FacetValueCount> = counts;
    let mut out: Vec<FacetValueCount> = Vec::new();
    while rest.len() > 0
        invariant
            is_tally(all),
            rest@.len() <= all.len(),
            rest@ == all.take(rest@.len() as int),
            in_listed_order(out@),
            is_tally(out@),
            forall|i: int, j: int|
                0 <= i < rest@.len() && 0 <= j < out@.len() ==> (#[trigger] rest@[i]).value@ != (
                #[trigger] out@[j]).value@,
            forall|x: Seq<char>| #[trigger] tally(out@, x) + tally(rest@, x) == tally(all, x),
        decreases rest@.len(),
    {
        let ghost n = rest@.len() as int;
        let ghost before = out@;
        let ghost held = rest@;
        let e: FacetValueCount = match rest.pop() {
            Some(e) => e,
            None => return out,
        };
        let ghost entry = e;
        proof {
            assert(entry == held[n - 1] && entry == all[n - 1]);
            assert(rest@ =~= held.drop_last());
            assert(rest@ =~= all.take(n - 1));
        }
        insert_listed(&mut out, e);
        proof {
            let at = choose|at: int|
                0 <= at <= before.len() && out@ == #[trigger] before.insert(at, entry);
            assert forall|x: Seq<char>| #[trigger] tally(out@, x) + tally(rest@, x) == tally(
                all,
                x,
            ) by {
                tally_insert(before, at, entry, x);
                assert(tally(before, x) + tally(held, x) == tally(all, x));
            }
            assert forall|i: int, j: int| 0 <= i < j < out@.len() implies (
            #[trigger] out@[i]).value@ != (#[trigger] out@[j]).value@ by {
                if i == at {
                    assert(out@[j] == before[j - 1]);
                } else if j == at {
                    assert(out@[i] == before[i]);
                } else {
                    let a = if i < at { i } else { i - 1 };
                    let b = if j < at { j } else { j - 1 };
                    assert(out@[i] == before[a] && out@[j] == before[b]);
                }
            }
            assert forall|i: int| 0 <= i < out@.len() implies (#[trigger] out@[i]).count > 0 by {
                if i < at {
                    assert(out@[i] == before[i]);
                } else if i > at {
                    assert(out@[i] == before[i - 1]);
                }
            }
            assert forall|i: int, j: int|
                0 <= i < rest@.len() && 0 <= j < out@.len() implies (#[trigger] rest@[i]).value@
                != (#[trigger] out@[j]).value@ by {
                assert(rest@[i] == all[i]);
                if j < at {
                    assert(held[i] == all[i]);
                    assert(out@[j] == before[j]);
                } else if j > at {
                    assert(held[i] == all[i]);
                    assert(out@[j] == before[j - 1]);
                }
            }
        }
    }
    proof {
        assert(rest@ =~= Seq::empty());
        assert forall|x: Seq<char>| #[trigger] tally(out@, x) == tally(all, x) by {
            assert(tally(out@, x) + tally(rest@, x) == tally(all, x));
        }
    }
    out
}

/// `filter` with the given field asking nothing.
pub fn relax_filter(filter: &Filter, field: FacetField) -> (r: Filter)
    ensures
        r@ == relaxed(filter@, field),
{
    let mut f: Filter = filter.copy();
    match field {
        FacetField::Manufacturer => f.manufacturer = None,
        FacetField::Applications => f.applications = IdList::new(),
        FacetField::Labels => f.labels = IdList::new(),
        FacetField::IpCode => f.ip_code = IdList::new(),
        FacetField::SafetyClass => f.safety_class = IdList::new(),
        FacetField::IkRating => f.ik_rating = IdList::new(),
        FacetField::ProductForm => f.product_form = IdList::new(),
        FacetField::Adjustability => f.adjustability = IdList::new(),
        FacetField::MountingPlace => f.mounting_place = Vec::new(),
        FacetField::MountingType => f.mounting_type = Vec::new(),
        FacetField::LightDistribution => f.light_distribution = IdList::new(),
        FacetField::HasPhotometry => f.has_photometry = None,
        FacetField::Has3d => f.has_3d = None,
        FacetField::HasEmergencyLighting => f.has_emergency_lighting = None,
        FacetField::LampType => f.lamp_type = IdList::new(),
        FacetField::ControlGearInterface => f.control_gear_interfaces = IdList::new(),
        FacetField::EmergencyLightingType => f.emergency_lighting_type = IdList::new(),
    }
    f
}

/// The count list of one field, with that field relaxed in the filter.
pub fn count_one_facet(docs: &Vec<LuminaireDoc>, filter: &Filter, field: FacetField) -> (r: Vec<
    FacetValueCount,
>)
    requires
        docs@.len() <= u32::MAX,
    ensures
        facet_list(r@, doc_views(docs@), relaxed(filter@, field), field),
{
    let relaxed_filter: Filter = relax_filter(filter, field);
    let ghost f = relaxed(filter@, field);
    let ghost views = doc_views(docs@);
    let mut counts: Vec<FacetValueCount> = Vec::new();
    let mut i: usize = 0;
    while i < docs.len()
        invariant
            i <= docs@.len() <= u32::MAX,
            views == doc_views(docs@),
            relaxed_filter@ == f,
            is_tally(counts@),
            forall|x: Seq<char>| #[trigger]
                tally(counts@, x) == facet_count(views.take(i as int), f, field, x),
        decreases docs@.len() - i,
    {
        proof {
            assert(views[i as int] == docs@[i as int]@);
            assert(views.take(i + 1).drop_last() =~= views.take(i as int));
            assert forall|x: Seq<char>| #[trigger] tally(counts@, x) < u32::MAX by {
                facet_count_bounded(views.take(i as int), f, field, x);
            }
        }
        let ghost before = counts@;
        if relaxed_filter.matches_doc(&docs[i]) {
            emit_doc_values(&relaxed_filter, &docs[i], field, &mut counts);
        }
        proof {
            assert forall|x: Seq<char>| #[trigger]
                tally(counts@, x) == facet_count(views.take(i + 1), f, field, x) by {
                assert(tally(before, x) == facet_count(views.take(i as int), f, field, x));
            }
        }
        i += 1;
    }
    proof {
        assert(views.take(views.len() as int) =~= views);
    }
    let out: Vec<FacetValueCount> = sort_listed(counts);
    proof {
        assert forall|k: int| 0 <= k < out@.len() implies (#[trigger] out@[k]).count > 0
            && out@[k].count == facet_count(views, f, field, out@[k].value@) by {
            tally_entry(out@, k);
            assert(tally(out@, out@[k].value@) == tally(counts@, out@[k].value@));
        }
        assert forall|x: Seq<char>| #[trigger] facet_count(views, f, field, x) > 0 implies exists|
            k: int,
        | 0 <= k < out@.len() && (#[trigger] out@[k]).value@ == x by {
            assert(tally(out@, x) == tally(counts@, x));
            tally_present(out@, x);
        }
    }
    out
}

/// Sets the counts of one field.
pub fn assign_counts(out: &mut FacetCounts, field: FacetField, counts: Vec<FacetValueCount>)
    ensures
        counts_of(*final(out), field) == counts@,
        forall|g: FacetField|
            g != field ==> #[trigger] counts_of(*final(out), g) == counts_of(*old(out), g),
{
    match field {
        FacetField::Manufacturer => out.manufacturer = counts,
        FacetField::Applications => out.applications = counts,
        FacetField::Labels => out.labels = counts,
        FacetField::IpCode => out.ip_code = counts,
        FacetField::SafetyClass => out.safety_class = counts,
        FacetField::IkRating => out.ik_rating = counts,
        FacetField::ProductForm => out.product_form = counts,
        FacetField::Adjustability => out.adjustability = counts,
        FacetField::MountingPlace => out.mounting_place = counts,
        FacetField::MountingType => out.mounting_type = counts,
        FacetField::LightDistribution => out.light_distribution = counts,
        FacetField::HasPhotometry => out.has_photometry = counts,
        FacetField::Has3d => out.has_3d = counts,
        FacetField::HasEmergencyLighting => out.has_emergency_lighting = counts,
        FacetField::LampType => out.lamp_type = counts,
        FacetField::ControlGearInterface => out.control_gear_interfaces = counts,
        FacetField::EmergencyLightingType => out.emergency_lighting_type = counts,
    }
}

} // verus!
