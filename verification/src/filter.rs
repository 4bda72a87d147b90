//! Search filters and what they match.
//!
//! Within one field the values are alternatives; the fields together
//! must all be met. An empty list and an absent value demand nothing.

use crate::doc::{
    DocView, Locale, LuminaireDoc, MountingPlace, MountingType, PhotometryStats, VariantDoc,
    VariantView,
};
use crate::ids::IdList;
use crate::keys::{at_most, key_le};
use crate::text::{copy_opt_text, copy_texts, has_infix, holds_text, list_has, lowercase, opt_text, texts, unicode_lower};
use vstd::prelude::*;

verus! {

/// A closed range of measurements, by their order keys.
#[derive(Clone, Copy, PartialEq, Eq, Debug, Structural)]
pub struct KeyRange {
    /// Least value.
    pub lo: i32,
    /// Greatest value.
    pub hi: i32,
}

/// A closed range of colour temperatures.
#[derive(Clone, Copy, PartialEq, Eq, Debug, Structural)]
pub struct U16Range {
    /// Least value.
    pub lo: u16,
    /// Greatest value.
    pub hi: u16,
}

/// A closed range of depths.
#[derive(Clone, Copy, PartialEq, Eq, Debug, Structural)]
pub struct U32Range {
    /// Least value.
    pub lo: u32,
    /// Greatest value.
    pub hi: u32,
}

/// What a search asks for.
pub struct Filter {
    /// Text that must occur, in any case of letters.
    pub text: Option<String>,
    /// Language that the text search of descriptions is held to.
    pub locale: Option<Locale>,
    /// Manufacturers.
    pub manufacturer: Option<Vec<String>>,
    /// Application ids; a document meets the list by any of them.
    pub applications: IdList,
    /// Label ids.
    pub labels: IdList,
    /// IP code ids.
    pub ip_code: IdList,
    /// Safety class ids.
    pub safety_class: IdList,
    /// IK rating ids.
    pub ik_rating: IdList,
    /// Product form ids.
    pub product_form: IdList,
    /// Adjustability ids.
    pub adjustability: IdList,
    /// Light distribution ids.
    pub light_distribution: IdList,
    /// Lamp type ids.
    pub lamp_type: IdList,
    /// Control gear interface ids.
    pub control_gear_interfaces: IdList,
    /// Emergency lighting type ids.
    pub emergency_lighting_type: IdList,
    /// Mounting places.
    pub mounting_place: Vec<MountingPlace>,
    /// Mounting types.
    pub mounting_type: Vec<MountingType>,
    /// Whether photometric figures must be there or must be missing.
    pub has_photometry: Option<bool>,
    /// Whether a 3D model must be there or must be missing.
    pub has_3d: Option<bool>,
    /// Whether emergency lighting must be there or must be missing.
    pub has_emergency_lighting: Option<bool>,
    /// Luminous flux (lm).
    pub flux_lm: Option<KeyRange>,
    /// Electrical power (W).
    pub power_w: Option<KeyRange>,
    /// Luminous efficacy (lm/W).
    pub efficacy: Option<KeyRange>,
    /// Half-peak beam angle (degrees).
    pub beam_deg: Option<KeyRange>,
    /// Correlated colour temperature (K).
    pub cct_k: Option<U16Range>,
    /// Least colour rendering index.
    pub cri_min: Option<u8>,
    /// Depth of the recess (mm); met by recessed variants only.
    pub recessed_depth_mm: Option<U32Range>,
}

/// The view of a [`Filter`].
pub struct FilterView {
    /// Text that must occur.
    pub text: Option<Seq<char>>,
    /// Language of the text search.
    pub locale: Option<Locale>,
    /// Manufacturers.
    pub manufacturer: Option<Seq<Seq<char>>>,
    /// Application ids; a document meets the list by any of them.
    pub applications: Seq<u8>,
    /// Label ids.
    pub labels: Seq<u8>,
    /// IP code ids.
    pub ip_code: Seq<u8>,
    /// Safety class ids.
    pub safety_class: Seq<u8>,
    /// IK rating ids.
    pub ik_rating: Seq<u8>,
    /// Product form ids.
    pub product_form: Seq<u8>,
    /// Adjustability ids.
    pub adjustability: Seq<u8>,
    /// Light distribution ids.
    pub light_distribution: Seq<u8>,
    /// Lamp type ids.
    pub lamp_type: Seq<u8>,
    /// Control gear interface ids.
    pub control_gear_interfaces: Seq<u8>,
    /// Emergency lighting type ids.
    pub emergency_lighting_type: Seq<u8>,
    /// Mounting places.
    pub mounting_place: Seq<MountingPlace>,
    /// Mounting types.
    pub mounting_type: Seq<MountingType>,
    /// Presence of photometric figures.
    pub has_photometry: Option<bool>,
    /// Presence of a 3D model.
    pub has_3d: Option<bool>,
    /// Presence of emergency lighting.
    pub has_emergency_lighting: Option<bool>,
    /// Luminous flux.
    pub flux_lm: Option<KeyRange>,
    /// Electrical power.
    pub power_w: Option<KeyRange>,
    /// Luminous efficacy.
    pub efficacy: Option<KeyRange>,
    /// Beam angle.
    pub beam_deg: Option<KeyRange>,
    /// Colour temperature.
    pub cct_k: Option<U16Range>,
    /// Least colour rendering index.
    pub cri_min: Option<u8>,
    /// Depth of the recess.
    pub recessed_depth_mm: Option<U32Range>,
}

impl View for Filter {
    type V = FilterView;

    open spec fn view(&self) -> FilterView {
        FilterView {
            text: opt_text(self.text),
            locale: self.locale,
            manufacturer: match self.manufacturer {
                Some(list) => Some(texts(list@)),
                None => None,
            },
            applications: self.applications@,
            labels: self.labels@,
            ip_code: self.ip_code@,
            safety_class: self.safety_class@,
            ik_rating: self.ik_rating@,
            product_form: self.product_form@,
            adjustability: self.adjustability@,
            light_distribution: self.light_distribution@,
            lamp_type: self.lamp_type@,
            control_gear_interfaces: self.control_gear_interfaces@,
            emergency_lighting_type: self.emergency_lighting_type@,
            mounting_place: self.mounting_place@,
            mounting_type: self.mounting_type@,
            has_photometry: self.has_photometry,
            has_3d: self.has_3d,
            has_emergency_lighting: self.has_emergency_lighting,
            flux_lm: self.flux_lm,
            power_w: self.power_w,
            efficacy: self.efficacy,
            beam_deg: self.beam_deg,
            cct_k: self.cct_k,
            cri_min: self.cri_min,
            recessed_depth_mm: self.recessed_depth_mm,
        }
    }
}

/// The filter that demands nothing.
pub open spec fn open_filter() -> FilterView {
    FilterView {
        text: None,
        locale: None,
        manufacturer: None,
        applications: Seq::empty(),
        labels: Seq::empty(),
        ip_code: Seq::empty(),
        safety_class: Seq::empty(),
        ik_rating: Seq::empty(),
        product_form: Seq::empty(),
        adjustability: Seq::empty(),
        light_distribution: Seq::empty(),
        lamp_type: Seq::empty(),
        control_gear_interfaces: Seq::empty(),
        emergency_lighting_type: Seq::empty(),
        mounting_place: Seq::empty(),
        mounting_type: Seq::empty(),
        has_photometry: None,
        has_3d: None,
        has_emergency_lighting: None,
        flux_lm: None,
        power_w: None,
        efficacy: None,
        beam_deg: None,
        cct_k: None,
        cri_min: None,
        recessed_depth_mm: None,
    }
}

// ---------------------------------------------------------------------
// What a filter matches
// ---------------------------------------------------------------------

/// Whether an optional id meets a list of ids.
pub open spec fn id_meets(list: Seq<u8>, id: Option<u8>) -> bool {
    list.len() == 0 || (id matches Some(x) && list.contains(x))
}

/// Whether one of several ids meets a list of ids.
pub open spec fn ids_meet(list: Seq<u8>, ids: Seq<u8>) -> bool {
    list.len() == 0 || exists|i: int| 0 <= i < ids.len() && list.contains(#[trigger] ids[i])
}

/// Whether a presence meets what is asked of it.
pub open spec fn flag_meets(asked: Option<bool>, present: bool) -> bool {
    asked matches Some(b) ==> b == present
}

/// Whether an optional measurement lies in an optional range.
pub open spec fn key_meets(range: Option<KeyRange>, v: Option<i32>) -> bool {
    range matches Some(r) ==> (v matches Some(x) && key_le(r.lo, x) && key_le(x, r.hi))
}

/// Whether the lowered text `needle` occurs in the text `s`, lowered.
pub open spec fn text_in(s: Seq<char>, needle: Seq<char>) -> bool {
    has_infix(unicode_lower(s), needle)
}

/// Whether a document holds the lowered text `needle`: in its
/// manufacturer, its product name, a keyword, or a description in the
/// language asked for.
pub open spec fn doc_holds_text(d: DocView, needle: Seq<char>, locale: Option<Locale>) -> bool {
    ||| text_in(d.manufacturer, needle)
    ||| text_in(d.product, needle)
    ||| exists|i: int| 0 <= i < d.keywords.len() && text_in(#[trigger] d.keywords[i], needle)
    ||| exists|i: int|
        0 <= i < d.descriptions.len() && (locale is None || locale == Some(
            (#[trigger] d.descriptions[i]).0,
        )) && text_in(d.descriptions[i].1, needle)
}

/// Whether a document meets the part of a filter that speaks of the
/// document as a whole.
pub open spec fn doc_scope_matches(f: FilterView, d: DocView) -> bool {
    &&& f.text matches Some(t) ==> doc_holds_text(d, unicode_lower(t), f.locale)
    &&& f.manufacturer matches Some(list) ==> list.contains(d.manufacturer)
    &&& ids_meet(f.applications, d.applications)
    &&& ids_meet(f.labels, d.labels)
    &&& id_meets(f.ip_code, d.ip_code)
    &&& id_meets(f.safety_class, d.safety_class)
    &&& id_meets(f.ik_rating, d.ik_rating)
    &&& id_meets(f.product_form, d.product_form)
    &&& ids_meet(f.adjustability, d.adjustability)
}

/// Whether photometric figures meet the part of a filter that speaks of
/// them.
pub open spec fn stats_match(f: FilterView, p: Option<PhotometryStats>) -> bool {
    match p {
        Some(s) => {
            &&& key_meets(f.flux_lm, s.flux_lm)
            &&& key_meets(f.power_w, s.power_w)
            &&& key_meets(f.efficacy, s.efficacy_lm_w)
            &&& key_meets(f.beam_deg, s.beam_deg)
            &&& f.cct_k matches Some(r) ==> (s.cct_k matches Some(k) && r.lo <= k <= r.hi)
            &&& f.cri_min matches Some(m) ==> (s.cri_ra matches Some(c) && m <= c)
            &&& id_meets(f.light_distribution, s.light_distribution)
        },
        None => {
            &&& f.flux_lm is None
            &&& f.power_w is None
            &&& f.efficacy is None
            &&& f.beam_deg is None
            &&& f.cct_k is None
            &&& f.cri_min is None
            &&& f.light_distribution.len() == 0
        },
    }
}

/// Whether a variant meets the part of a filter that speaks of variants.
pub open spec fn variant_matches(f: FilterView, v: VariantView) -> bool {
    &&& f.mounting_place.len() == 0 || f.mounting_place.contains(v.mounting_place)
    &&& f.mounting_type.len() == 0 || f.mounting_type.contains(v.mounting_type)
    &&& flag_meets(f.has_photometry, v.photometry is Some)
    &&& flag_meets(f.has_3d, v.has_3d)
    &&& flag_meets(f.has_emergency_lighting, v.has_emergency_lighting)
    &&& id_meets(f.lamp_type, v.lamp_type)
    &&& ids_meet(f.control_gear_interfaces, v.control_gear_interfaces)
    &&& id_meets(f.emergency_lighting_type, v.emergency_lighting_type)
    &&& f.recessed_depth_mm matches Some(r) ==> (v.mounting_type == MountingType::Recessed
        && (v.recessed_depth_mm matches Some(d) && r.lo <= d <= r.hi))
    &&& stats_match(f, v.photometry)
}

/// Whether a filter asks anything of variants.
pub open spec fn variant_predicate(f: FilterView) -> bool {
    ||| f.mounting_place.len() > 0
    ||| f.mounting_type.len() > 0
    ||| f.light_distribution.len() > 0
    ||| f.lamp_type.len() > 0
    ||| f.control_gear_interfaces.len() > 0
    ||| f.emergency_lighting_type.len() > 0
    ||| f.has_photometry is Some
    ||| f.has_3d is Some
    ||| f.has_emergency_lighting is Some
    ||| f.flux_lm is Some
    ||| f.power_w is Some
    ||| f.efficacy is Some
    ||| f.beam_deg is Some
    ||| f.cct_k is Some
    ||| f.cri_min is Some
    ||| f.recessed_depth_mm is Some
}

/// Whether a document meets a filter: as a whole and, where the filter
/// asks anything of variants, by one variant that meets all of that.
pub open spec fn doc_matches(f: FilterView, d: DocView) -> bool {
    &&& doc_scope_matches(f, d)
    &&& variant_predicate(f) ==> exists|i: int|
        0 <= i < d.variants.len() && variant_matches(f, #[trigger] d.variants[i])
}

/// Whether a filter holds nothing but a text.
pub open spec fn text_only(f: FilterView) -> bool {
    &&& f.text is Some
    &&& f.manufacturer is None
    &&& f.applications.len() == 0
    &&& f.labels.len() == 0
    &&& f.ip_code.len() == 0
    &&& f.safety_class.len() == 0
    &&& f.ik_rating.len() == 0
    &&& f.product_form.len() == 0
    &&& f.adjustability.len() == 0
    &&& !variant_predicate(f)
}

// ---------------------------------------------------------------------
// Laws
// ---------------------------------------------------------------------

/// A filter that asks nothing of variants is met by every variant.
pub proof fn no_predicate_matches_every_variant(f: FilterView, v: VariantView)
    requires
        !variant_predicate(f),
    ensures
        variant_matches(f, v),
{
}

/// The open filter matches every document.
pub proof fn open_filter_matches_every_doc(d: DocView)
    ensures
        doc_matches(open_filter(), d),
{
}

/// A demand for a colour rendering index is a floor: a variant meets it
/// exactly where its index is known and not below.
pub proof fn cri_demand_is_a_floor(m: u8, v: VariantView)
    ensures
        variant_matches(FilterView { cri_min: Some(m), ..open_filter() }, v) <==> exists|c: u8|
            v.photometry is Some && v.photometry->0.cri_ra == Some(c) && c >= m,
{
}

/// What a lower floor of the colour rendering index loses, a higher one
/// loses too, and no variant is lost by a better index.
pub proof fn cri_demand_is_monotone(f: FilterView, m: u8, v: VariantView, c: u8)
    requires
        f.cri_min matches Some(n) && m <= n,
        variant_matches(f, v),
        v.photometry->0.cri_ra matches Some(n) && n <= c,
    ensures
        variant_matches(FilterView { cri_min: Some(m), ..f }, v),
        variant_matches(
            f,
            VariantView {
                photometry: Some(PhotometryStats { cri_ra: Some(c), ..v.photometry->0 }),
                ..v
            },
        ),
{
}

/// A demand for a colour temperature is met from end to end of its range,
/// the ends included, and nowhere else.
pub proof fn cct_demand_is_a_range(r: U16Range, v: VariantView)
    ensures
        variant_matches(FilterView { cct_k: Some(r), ..open_filter() }, v) <==> exists|k: u16|
            v.photometry is Some && v.photometry->0.cct_k == Some(k) && r.lo <= k && k <= r.hi,
{
}

/// A demand for a depth is met by recessed variants whose depth is known
/// and within the range, the ends included, and by no others.
pub proof fn depth_demand_is_of_recessed_variants(r: U32Range, v: VariantView)
    ensures
        variant_matches(FilterView { recessed_depth_mm: Some(r), ..open_filter() }, v)
            <==> v.mounting_type == MountingType::Recessed && exists|d: u32|
            v.recessed_depth_mm == Some(d) && r.lo <= d && d <= r.hi,
{
}

/// A demand for a luminous flux is met from end to end of its range,
/// the ends included, where the figure is known and a number.
pub proof fn flux_demand_is_a_range(r: KeyRange, v: VariantView)
    requires
        -0x7f80_0000 <= r.lo <= 0x7f80_0000,
        -0x7f80_0000 <= r.hi <= 0x7f80_0000,
    ensures
        variant_matches(FilterView { flux_lm: Some(r), ..open_filter() }, v) <==> exists|x: i32|
            v.photometry is Some && v.photometry->0.flux_lm == Some(x) && r.lo <= x && x <= r.hi,
{
}

/// A demand for a power is met from end to end of its range,
/// the ends included, where the figure is known and a number.
pub proof fn power_demand_is_a_range(r: KeyRange, v: VariantView)
    requires
        -0x7f80_0000 <= r.lo <= 0x7f80_0000,
        -0x7f80_0000 <= r.hi <= 0x7f80_0000,
    ensures
        variant_matches(FilterView { power_w: Some(r), ..open_filter() }, v) <==> exists|x: i32|
            v.photometry is Some && v.photometry->0.power_w == Some(x) && r.lo <= x && x <= r.hi,
{
}

/// A demand for an efficacy is met from end to end of its range,
/// the ends included, where the figure is known and a number.
pub proof fn efficacy_demand_is_a_range(r: KeyRange, v: VariantView)
    requires
        -0x7f80_0000 <= r.lo <= 0x7f80_0000,
        -0x7f80_0000 <= r.hi <= 0x7f80_0000,
    ensures
        variant_matches(FilterView { efficacy: Some(r), ..open_filter() }, v) <==> exists|x: i32|
            v.photometry is Some && v.photometry->0.efficacy_lm_w == Some(x) && r.lo <= x && x <= r.hi,
{
}

/// A demand for a beam angle is met from end to end of its range,
/// the ends included, where the figure is known and a number.
pub proof fn beam_demand_is_a_range(r: KeyRange, v: VariantView)
    requires
        -0x7f80_0000 <= r.lo <= 0x7f80_0000,
        -0x7f80_0000 <= r.hi <= 0x7f80_0000,
    ensures
        variant_matches(FilterView { beam_deg: Some(r), ..open_filter() }, v) <==> exists|x: i32|
            v.photometry is Some && v.photometry->0.beam_deg == Some(x) && r.lo <= x && x <= r.hi,
{
}

/// A demand for a presence is met exactly where what is demanded is so.
pub proof fn presence_demands_are_met(b: bool, v: VariantView)
    ensures
        variant_matches(FilterView { has_photometry: Some(b), ..open_filter() }, v) <==> b
            == v.photometry is Some,
        variant_matches(FilterView { has_3d: Some(b), ..open_filter() }, v) <==> b == v.has_3d,
        variant_matches(FilterView { has_emergency_lighting: Some(b), ..open_filter() }, v) <==> b
            == v.has_emergency_lighting,
{
}

/// The places and types of mounting that are demanded are alternatives.
pub proof fn mounting_demands_are_alternatives(
    places: Seq<MountingPlace>,
    types: Seq<MountingType>,
    v: VariantView,
)
    requires
        places.len() > 0,
        types.len() > 0,
    ensures
        variant_matches(FilterView { mounting_place: places, ..open_filter() }, v)
            <==> exists|i: int| 0 <= i < places.len() && places[i] == v.mounting_place,
        variant_matches(FilterView { mounting_type: types, ..open_filter() }, v) <==> exists|i: int|
            0 <= i < types.len() && types[i] == v.mounting_type,
{
}

/// The closed-list values that are demanded of a variant are
/// alternatives, and a variant without a value meets none.
pub proof fn variant_list_demands_are_alternatives(ids: Seq<u8>, v: VariantView)
    requires
        ids.len() > 0,
    ensures
        variant_matches(FilterView { lamp_type: ids, ..open_filter() }, v) <==> exists|i: int|
            0 <= i < ids.len() && v.lamp_type == Some(ids[i]),
        variant_matches(FilterView { emergency_lighting_type: ids, ..open_filter() }, v)
            <==> exists|i: int| 0 <= i < ids.len() && v.emergency_lighting_type == Some(ids[i]),
        variant_matches(FilterView { light_distribution: ids, ..open_filter() }, v)
            <==> exists|i: int|
            0 <= i < ids.len() && v.photometry is Some && v.photometry->0.light_distribution
                == Some(ids[i]),
        variant_matches(FilterView { control_gear_interfaces: ids, ..open_filter() }, v)
            <==> exists|i: int, j: int|
            0 <= i < ids.len() && 0 <= j < v.control_gear_interfaces.len() && ids[i]
                == v.control_gear_interfaces[j],
{
    one_of_them(ids, v.lamp_type);
    one_of_them(ids, v.emergency_lighting_type);
    one_of_them(
        ids,
        match v.photometry {
            Some(p) => p.light_distribution,
            None => None,
        },
    );
    some_of_them(ids, v.control_gear_interfaces);
}

proof fn one_of_them(ids: Seq<u8>, id: Option<u8>)
    requires
        ids.len() > 0,
    ensures
        id_meets(ids, id) <==> exists|i: int| 0 <= i < ids.len() && id == Some(ids[i]),
{
    if id_meets(ids, id) {
        let i = choose|i: int| 0 <= i < ids.len() && ids[i] == id->0;
        assert(id == Some(ids[i]));
    }
}

proof fn some_of_them(ids: Seq<u8>, had: Seq<u8>)
    requires
        ids.len() > 0,
    ensures
        ids_meet(ids, had) <==> exists|i: int, j: int|
            0 <= i < ids.len() && 0 <= j < had.len() && ids[i] == had[j],
{
    if ids_meet(ids, had) {
        let j = choose|j: int| 0 <= j < had.len() && ids.contains(#[trigger] had[j]);
        let i = choose|i: int| 0 <= i < ids.len() && ids[i] == had[j];
        assert(ids[i] == had[j]);
    }
    if exists|i: int, j: int| 0 <= i < ids.len() && 0 <= j < had.len() && ids[i] == had[j] {
        let (i, j) = choose|i: int, j: int|
            0 <= i < ids.len() && 0 <= j < had.len() && ids[i] == had[j];
        assert(ids.contains(had[j]));
    }
}

/// The closed-list values that are demanded of a document are
/// alternatives, and a document without a value meets none.
#[verifier::spinoff_prover]
pub proof fn doc_list_demands_are_alternatives(ids: Seq<u8>, d: DocView)
    requires
        ids.len() > 0,
    ensures
        doc_matches(FilterView { ip_code: ids, ..open_filter() }, d) <==> exists|i: int|
            0 <= i < ids.len() && d.ip_code == Some(ids[i]),
        doc_matches(FilterView { safety_class: ids, ..open_filter() }, d) <==> exists|i: int|
            0 <= i < ids.len() && d.safety_class == Some(ids[i]),
        doc_matches(FilterView { ik_rating: ids, ..open_filter() }, d) <==> exists|i: int|
            0 <= i < ids.len() && d.ik_rating == Some(ids[i]),
        doc_matches(FilterView { product_form: ids, ..open_filter() }, d) <==> exists|i: int|
            0 <= i < ids.len() && d.product_form == Some(ids[i]),
        doc_matches(FilterView { applications: ids, ..open_filter() }, d) <==> exists|i: int, j: int|
            0 <= i < ids.len() && 0 <= j < d.applications.len() && ids[i] == d.applications[j],
        doc_matches(FilterView { labels: ids, ..open_filter() }, d) <==> exists|i: int, j: int|
            0 <= i < ids.len() && 0 <= j < d.labels.len() && ids[i] == d.labels[j],
        doc_matches(FilterView { adjustability: ids, ..open_filter() }, d) <==> exists|
            i: int,
            j: int,
        | 0 <= i < ids.len() && 0 <= j < d.adjustability.len() && ids[i] == d.adjustability[j],
{
    one_of_them(ids, d.ip_code);
    one_of_them(ids, d.safety_class);
    one_of_them(ids, d.ik_rating);
    one_of_them(ids, d.product_form);
    some_of_them(ids, d.applications);
    some_of_them(ids, d.labels);
    some_of_them(ids, d.adjustability);
}

/// The manufacturers that are demanded are alternatives, letter for
/// letter.
pub proof fn manufacturer_demands_are_alternatives(list: Seq<Seq<char>>, d: DocView)
    ensures
        doc_matches(FilterView { manufacturer: Some(list), ..open_filter() }, d) <==> exists|i: int|
            0 <= i < list.len() && list[i] == d.manufacturer,
{
}

/// A text is found in the manufacturer, the product name, the keywords
/// and the descriptions, in any case of letters, and nowhere else; a
/// language bears on the descriptions alone.
pub proof fn text_demand_is_found(t: Seq<char>, language: Option<Locale>, d: DocView)
    ensures
        ({
            let f = FilterView { text: Some(t), locale: language, ..open_filter() };
            let found = |s: Seq<char>| has_infix(unicode_lower(s), unicode_lower(t));
            &&& found(d.manufacturer) ==> doc_matches(f, d)
            &&& found(d.product) ==> doc_matches(f, d)
            &&& forall|i: int|
                0 <= i < d.keywords.len() && found(#[trigger] d.keywords[i]) ==> doc_matches(f, d)
            &&& forall|i: int|
                0 <= i < d.descriptions.len() && found((#[trigger] d.descriptions[i]).1) && (
                language is None || language == Some(d.descriptions[i].0)) ==> doc_matches(f, d)
            &&& doc_matches(f, d) ==> found(d.manufacturer) || found(d.product) || (exists|i: int|
                0 <= i < d.keywords.len() && found(#[trigger] d.keywords[i])) || (exists|i: int|
                0 <= i < d.descriptions.len() && found((#[trigger] d.descriptions[i]).1) && (
                language is None || language == Some(d.descriptions[i].0)))
        }),
{
    let f = FilterView { text: Some(t), locale: language, ..open_filter() };
    let needle = unicode_lower(t);
    let found = |s: Seq<char>| has_infix(unicode_lower(s), unicode_lower(t));
    assert forall|i: int|
        0 <= i < d.keywords.len() && found(#[trigger] d.keywords[i]) implies doc_matches(f, d) by {
        assert(text_in(d.keywords[i], needle));
    }
    assert forall|i: int|
        0 <= i < d.descriptions.len() && found((#[trigger] d.descriptions[i]).1) && (language is None
            || language == Some(d.descriptions[i].0)) implies doc_matches(f, d) by {
        assert(text_in(d.descriptions[i].1, needle));
    }
}

/// A language by itself demands nothing.
pub proof fn language_alone_demands_nothing(language: Option<Locale>, d: DocView)
    ensures
        doc_matches(FilterView { locale: language, ..open_filter() }, d),
{
}

/// A variant meets a filter exactly if it meets each of its demands.
#[verifier::spinoff_prover]
pub proof fn variant_demands_add_up(f: FilterView, v: VariantView)
    ensures
        variant_matches(f, v) <==> {
            &&& variant_matches(FilterView { mounting_place: f.mounting_place, ..open_filter() }, v)
            &&& variant_matches(FilterView { mounting_type: f.mounting_type, ..open_filter() }, v)
            &&& variant_matches(FilterView { light_distribution: f.light_distribution, ..open_filter() }, v)
            &&& variant_matches(FilterView { lamp_type: f.lamp_type, ..open_filter() }, v)
            &&& variant_matches(FilterView { control_gear_interfaces: f.control_gear_interfaces, ..open_filter() }, v)
            &&& variant_matches(FilterView { emergency_lighting_type: f.emergency_lighting_type, ..open_filter() }, v)
            &&& variant_matches(FilterView { has_photometry: f.has_photometry, ..open_filter() }, v)
            &&& variant_matches(FilterView { has_3d: f.has_3d, ..open_filter() }, v)
            &&& variant_matches(FilterView { has_emergency_lighting: f.has_emergency_lighting, ..open_filter() }, v)
            &&& variant_matches(FilterView { flux_lm: f.flux_lm, ..open_filter() }, v)
            &&& variant_matches(FilterView { power_w: f.power_w, ..open_filter() }, v)
            &&& variant_matches(FilterView { efficacy: f.efficacy, ..open_filter() }, v)
            &&& variant_matches(FilterView { beam_deg: f.beam_deg, ..open_filter() }, v)
            &&& variant_matches(FilterView { cct_k: f.cct_k, ..open_filter() }, v)
            &&& variant_matches(FilterView { cri_min: f.cri_min, ..open_filter() }, v)
            &&& variant_matches(FilterView { recessed_depth_mm: f.recessed_depth_mm, ..open_filter() }, v)
        },
{
}

/// A document meets a filter exactly if it meets each demand on the
/// document, and one of its variants meets all that is demanded of
/// variants.
#[verifier::spinoff_prover]
pub proof fn doc_demands_add_up(f: FilterView, d: DocView)
    ensures
        doc_matches(f, d) <==> {
            &&& doc_matches(FilterView { text: f.text, locale: f.locale, ..open_filter() }, d)
            &&& doc_matches(FilterView { manufacturer: f.manufacturer, ..open_filter() }, d)
            &&& doc_matches(FilterView { applications: f.applications, ..open_filter() }, d)
            &&& doc_matches(FilterView { labels: f.labels, ..open_filter() }, d)
            &&& doc_matches(FilterView { ip_code: f.ip_code, ..open_filter() }, d)
            &&& doc_matches(FilterView { safety_class: f.safety_class, ..open_filter() }, d)
            &&& doc_matches(FilterView { ik_rating: f.ik_rating, ..open_filter() }, d)
            &&& doc_matches(FilterView { product_form: f.product_form, ..open_filter() }, d)
            &&& doc_matches(FilterView { adjustability: f.adjustability, ..open_filter() }, d)
            &&& variant_predicate(f) ==> exists|i: int|
                0 <= i < d.variants.len() && variant_matches(f, #[trigger] d.variants[i])
        },
{
    assert(!variant_predicate(open_filter()));
}

/// Any demand on variants counts as one: a document without variants
/// meets none of them, and the demands on documents leave it alone.
pub proof fn demands_on_variants_need_a_variant(f: FilterView, d: DocView)
    requires
        d.variants.len() == 0,
    ensures
        doc_matches(f, d) ==> {
            &&& f.mounting_place.len() == 0
            &&& f.mounting_type.len() == 0
            &&& f.light_distribution.len() == 0
            &&& f.lamp_type.len() == 0
            &&& f.control_gear_interfaces.len() == 0
            &&& f.emergency_lighting_type.len() == 0
            &&& f.has_photometry is None
            &&& f.has_3d is None
            &&& f.has_emergency_lighting is None
            &&& f.flux_lm is None
            &&& f.power_w is None
            &&& f.efficacy is None
            &&& f.beam_deg is None
            &&& f.cct_k is None
            &&& f.cri_min is None
            &&& f.recessed_depth_mm is None
        },
        doc_matches(
            FilterView {
                manufacturer: f.manufacturer,
                applications: f.applications,
                labels: f.labels,
                ip_code: f.ip_code,
                safety_class: f.safety_class,
                ik_rating: f.ik_rating,
                product_form: f.product_form,
                adjustability: f.adjustability,
                text: f.text,
                locale: f.locale,
                ..open_filter()
            },
            d,
        ) <==> doc_scope_matches(f, d),
{
}

/// A range with an end that is no number is met by nothing.
pub proof fn ranges_without_numbers_are_not_met(r: KeyRange, v: VariantView)
    requires
        r.lo > 0x7f80_0000 || r.lo < -0x7f80_0000 || r.hi > 0x7f80_0000 || r.hi < -0x7f80_0000,
    ensures
        !variant_matches(FilterView { flux_lm: Some(r), ..open_filter() }, v),
        !variant_matches(FilterView { power_w: Some(r), ..open_filter() }, v),
        !variant_matches(FilterView { efficacy: Some(r), ..open_filter() }, v),
        !variant_matches(FilterView { beam_deg: Some(r), ..open_filter() }, v),
{
}

/// A filter holds nothing but a text exactly if it has a text and is
/// otherwise, but for the language, the open one.
pub proof fn text_only_filters_have_a_text_alone(f: FilterView)
    ensures
        text_only(f) <==> f.text is Some && f == (FilterView {
            text: f.text,
            locale: f.locale,
            ..open_filter()
        }),
{
    if text_only(f) {
        assert(f.applications =~= open_filter().applications);
        assert(f.labels =~= open_filter().labels);
        assert(f.ip_code =~= open_filter().ip_code);
        assert(f.safety_class =~= open_filter().safety_class);
        assert(f.ik_rating =~= open_filter().ik_rating);
        assert(f.product_form =~= open_filter().product_form);
        assert(f.adjustability =~= open_filter().adjustability);
        assert(f.light_distribution =~= open_filter().light_distribution);
        assert(f.lamp_type =~= open_filter().lamp_type);
        assert(f.control_gear_interfaces =~= open_filter().control_gear_interfaces);
        assert(f.emergency_lighting_type =~= open_filter().emergency_lighting_type);
        assert(f.mounting_place =~= open_filter().mounting_place);
        assert(f.mounting_type =~= open_filter().mounting_type);
    }
}

// ---------------------------------------------------------------------
// Deciding
// ---------------------------------------------------------------------

/// Whether an optional id meets a list of ids.
fn meets_id(list: &IdList, id: Option<u8>) -> (r: bool)
    ensures
        r == id_meets(list@, id),
{
    if list.is_empty() {
        return true;
    }
    match id {
        Some(x) => list.contains(x),
        None => false,
    }
}

/// Whether one of several ids meets a list of ids.
fn meets_ids(list: &IdList, ids: &IdList) -> (r: bool)
    ensures
        r == ids_meet(list@, ids@),
{
    if list.is_empty() {
        return true;
    }
    let mut i: usize = 0;
    while i < ids.len()
        invariant
            i <= ids@.len(),
            forall|j: int| 0 <= j < i ==> !list@.contains(#[trigger] ids@[j]),
        decreases ids@.len() - i,
    {
        if list.contains(ids.get(i)) {
            return true;
        }
        i += 1;
    }
    false
}

/// Whether a presence meets what is asked of it.
fn meets_flag(asked: Option<bool>, present: bool) -> (r: bool)
    ensures
        r == flag_meets(asked, present),
{
    match asked {
        Some(b) => b == present,
        None => true,
    }
}

/// Whether an optional measurement lies in an optional range.
fn meets_key(range: Option<KeyRange>, v: Option<i32>) -> (r: bool)
    ensures
        r == key_meets(range, v),
{
    match (range, v) {
        (None, _) => true,
        (Some(r), Some(x)) => at_most(r.lo, x) && at_most(x, r.hi),
        (Some(_), None) => false,
    }
}

/// Whether `needle` occurs in `s`, lowered.
fn lowered_holds(s: &str, needle: &str) -> (r: bool)
    ensures
        r == text_in(s@, needle@),
{
    holds_text(lowercase(s).as_str(), needle)
}

/// Whether a list of places holds a place.
pub fn has_place(list: &Vec<MountingPlace>, p: MountingPlace) -> (r: bool)
    ensures
        r == list@.contains(p),
{
    let mut i: usize = 0;
    while i < list.len()
        invariant
            i <= list@.len(),
            forall|j: int| 0 <= j < i ==> list@[j] != p,
        decreases list@.len() - i,
    {
        if list[i] == p {
            return true;
        }
        i += 1;
    }
    false
}

/// Whether a list of mounting types holds a mounting type.
pub fn has_type(list: &Vec<MountingType>, t: MountingType) -> (r: bool)
    ensures
        r == list@.contains(t),
{
    let mut i: usize = 0;
    while i < list.len()
        invariant
            i <= list@.len(),
            forall|j: int| 0 <= j < i ==> list@[j] != t,
        decreases list@.len() - i,
    {
        if list[i] == t {
            return true;
        }
        i += 1;
    }
    false
}

/// A copy of a list of places.
pub fn copy_places(list: &Vec<MountingPlace>) -> (r: Vec<MountingPlace>)
    ensures
        r@ == list@,
{
    let mut r: Vec<MountingPlace> = Vec::new();
    let mut i: usize = 0;
    while i < list.len()
        invariant
            i <= list@.len(),
            r@ == list@.take(i as int),
        decreases list@.len() - i,
    {
        proof {
            assert(list@.take(i + 1) =~= list@.take(i as int).push(list@[i as int]));
        }
        r.push(list[i]);
        i += 1;
    }
    proof {
        assert(list@.take(list@.len() as int) =~= list@);
    }
    r
}

/// A copy of a list of mounting types.
pub fn copy_types(list: &Vec<MountingType>) -> (r: Vec<MountingType>)
    ensures
        r@ == list@,
{
    let mut r: Vec<MountingType> = Vec::new();
    let mut i: usize = 0;
    while i < list.len()
        invariant
            i <= list@.len(),
            r@ == list@.take(i as int),
        decreases list@.len() - i,
    {
        proof {
            assert(list@.take(i + 1) =~= list@.take(i as int).push(list@[i as int]));
        }
        r.push(list[i]);
        i += 1;
    }
    proof {
        assert(list@.take(list@.len() as int) =~= list@);
    }
    r
}

impl Default for Filter {
    /// The filter that demands nothing.
    fn default() -> (r: Filter)
        ensures
            r@ == open_filter(),
    {
        Filter {
            text: None,
            locale: None,
            manufacturer: None,
            applications: IdList::new(),
            labels: IdList::new(),
            ip_code: IdList::new(),
            safety_class: IdList::new(),
            ik_rating: IdList::new(),
            product_form: IdList::new(),
            adjustability: IdList::new(),
            light_distribution: IdList::new(),
            lamp_type: IdList::new(),
            control_gear_interfaces: IdList::new(),
            emergency_lighting_type: IdList::new(),
            mounting_place: Vec::new(),
            mounting_type: Vec::new(),
            has_photometry: None,
            has_3d: None,
            has_emergency_lighting: None,
            flux_lm: None,
            power_w: None,
            efficacy: None,
            beam_deg: None,
            cct_k: None,
            cri_min: None,
            recessed_depth_mm: None,
        }
    }
}

impl Filter {
    /// A filter of its own that asks the same.
    pub fn copy(&self) -> (r: Filter)
        ensures
            r@ == self@,
    {
        Filter {
            text: copy_opt_text(&self.text),
            locale: self.locale,
            manufacturer: match &self.manufacturer {
                Some(list) => Some(copy_texts(list)),
                None => None,
            },
            applications: self.applications.copy(),
            labels: self.labels.copy(),
            ip_code: self.ip_code.copy(),
            safety_class: self.safety_class.copy(),
            ik_rating: self.ik_rating.copy(),
            product_form: self.product_form.copy(),
            adjustability: self.adjustability.copy(),
            light_distribution: self.light_distribution.copy(),
            lamp_type: self.lamp_type.copy(),
            control_gear_interfaces: self.control_gear_interfaces.copy(),
            emergency_lighting_type: self.emergency_lighting_type.copy(),
            mounting_place: copy_places(&self.mounting_place),
            mounting_type: copy_types(&self.mounting_type),
            has_photometry: self.has_photometry,
            has_3d: self.has_3d,
            has_emergency_lighting: self.has_emergency_lighting,
            flux_lm: self.flux_lm,
            power_w: self.power_w,
            efficacy: self.efficacy,
            beam_deg: self.beam_deg,
            cct_k: self.cct_k,
            cri_min: self.cri_min,
            recessed_depth_mm: self.recessed_depth_mm,
        }
    }

    /// Whether the document holds the text asked for.
    fn text_matches(&self, doc: &LuminaireDoc) -> (r: bool)
        ensures
            r == (self@.text matches Some(t) ==> doc_holds_text(
                doc@,
                unicode_lower(t),
                self@.locale,
            )),
    {
        let needle: String = match &self.text {
            Some(t) => lowercase(t.as_str()),
            None => return true,
        };
        if lowered_holds(doc.manufacturer.as_str(), needle.as_str()) || lowered_holds(
            doc.product.as_str(),
            needle.as_str(),
        ) {
            return true;
        }
        let mut i: usize = 0;
        while i < doc.keywords.len()
            invariant
                i <= doc.keywords@.len(),
                self.text matches Some(t) && needle@ == unicode_lower(t@),
                forall|j: int| 0 <= j < i ==> !text_in(#[trigger] doc@.keywords[j], needle@),
            decreases doc.keywords@.len() - i,
        {
            proof {
                assert(doc@.keywords[i as int] == doc.keywords@[i as int]@);
            }
            if lowered_holds(doc.keywords[i].as_str(), needle.as_str()) {
                return true;
            }
            i += 1;
        }
        let mut k: usize = 0;
        while k < doc.descriptions.len()
            invariant
                k <= doc.descriptions@.len(),
                self.text matches Some(t) && needle@ == unicode_lower(t@),
                forall|j: int|
                    0 <= j < k ==> !((self.locale is None || self.locale == Some(
                        (#[trigger] doc@.descriptions[j]).0,
                    )) && text_in(doc@.descriptions[j].1, needle@)),
            decreases doc.descriptions@.len() - k,
        {
            proof {
                assert(doc@.descriptions[k as int] == (
                    doc.descriptions@[k as int].0,
                    doc.descriptions@[k as int].1@,
                ));
            }
            let wanted: bool = match self.locale {
                Some(l) => l == doc.descriptions[k].0,
                None => true,
            };
            if wanted && lowered_holds(doc.descriptions[k].1.as_str(), needle.as_str()) {
                return true;
            }
            k += 1;
        }
        false
    }

    /// Whether a document meets the part of the filter that speaks of
    /// the document as a whole.
    pub fn matches_doc_scope(&self, doc: &LuminaireDoc) -> (r: bool)
        ensures
            r == doc_scope_matches(self@, doc@),
    {
        let made: bool = match &self.manufacturer {
            Some(list) => list_has(list, doc.manufacturer.as_str()),
            None => true,
        };
        made && meets_ids(&self.applications, &doc.applications) && meets_ids(
            &self.labels,
            &doc.labels,
        ) && meets_id(&self.ip_code, doc.ip_code) && meets_id(&self.safety_class, doc.safety_class)
            && meets_id(&self.ik_rating, doc.ik_rating) && meets_id(
            &self.product_form,
            doc.product_form,
        ) && meets_ids(&self.adjustability, &doc.adjustability) && self.text_matches(doc)
    }

    /// Whether photometric figures meet the part of the filter that
    /// speaks of them.
    fn matches_stats(&self, p: &Option<PhotometryStats>) -> (r: bool)
        ensures
            r == stats_match(self@, *p),
    {
        match p {
            Some(s) => {
                let cct: bool = match (self.cct_k, s.cct_k) {
                    (None, _) => true,
                    (Some(r), Some(k)) => r.lo <= k && k <= r.hi,
                    (Some(_), None) => false,
                };
                let cri: bool = match (self.cri_min, s.cri_ra) {
                    (None, _) => true,
                    (Some(m), Some(c)) => m <= c,
                    (Some(_), None) => false,
                };
                cct && cri && meets_key(self.flux_lm, s.flux_lm) && meets_key(
                    self.power_w,
                    s.power_w,
                ) && meets_key(self.efficacy, s.efficacy_lm_w) && meets_key(
                    self.beam_deg,
                    s.beam_deg,
                ) && meets_id(&self.light_distribution, s.light_distribution)
            },
            None => {
                self.flux_lm.is_none() && self.power_w.is_none() && self.efficacy.is_none()
                    && self.beam_deg.is_none() && self.cct_k.is_none() && self.cri_min.is_none()
                    && self.light_distribution.is_empty()
            },
        }
    }

    /// Whether a variant meets the part of the filter that speaks of
    /// variants.
    pub fn matches_variant(&self, v: &VariantDoc) -> (r: bool)
        ensures
            r == variant_matches(self@, v@),
    {
        let depth: bool = match (self.recessed_depth_mm, v.recessed_depth_mm) {
            (None, _) => true,
            (Some(r), Some(d)) => v.mounting_type == MountingType::Recessed && r.lo <= d && d
                <= r.hi,
            (Some(_), None) => false,
        };
        depth && (self.mounting_place.len() == 0 || has_place(
            &self.mounting_place,
            v.mounting_place,
        )) && (self.mounting_type.len() == 0 || has_type(&self.mounting_type, v.mounting_type))
            && meets_flag(self.has_photometry, v.photometry.is_some()) && meets_flag(
            self.has_3d,
            v.has_3d,
        ) && meets_flag(self.has_emergency_lighting, v.has_emergency_lighting) && meets_id(
            &self.lamp_type,
            v.lamp_type,
        ) && meets_ids(&self.control_gear_interfaces, &v.control_gear_interfaces) && meets_id(
            &self.emergency_lighting_type,
            v.emergency_lighting_type,
        ) && self.matches_stats(&v.photometry)
    }

    /// Whether the filter asks anything of variants.
    pub fn has_variant_predicate(&self) -> (r: bool)
        ensures
            r == variant_predicate(self@),
    {
        self.mounting_place.len() > 0 || self.mounting_type.len() > 0
            || !self.light_distribution.is_empty() || !self.lamp_type.is_empty()
            || !self.control_gear_interfaces.is_empty() || !self.emergency_lighting_type.is_empty()
            || self.has_photometry.is_some() || self.has_3d.is_some()
            || self.has_emergency_lighting.is_some() || self.flux_lm.is_some()
            || self.power_w.is_some() || self.efficacy.is_some() || self.beam_deg.is_some()
            || self.cct_k.is_some() || self.cri_min.is_some() || self.recessed_depth_mm.is_some()
    }

    /// Whether a document meets the filter.
    pub fn matches_doc(&self, doc: &LuminaireDoc) -> (r: bool)
        ensures
            r == doc_matches(self@, doc@),
    {
        if !self.matches_doc_scope(doc) {
            return false;
        }
        if !self.has_variant_predicate() {
            return true;
        }
        let mut i: usize = 0;
        while i < doc.variants.len()
            invariant
                i <= doc.variants@.len(),
                doc_scope_matches(self@, doc@),
                variant_predicate(self@),
                forall|j: int| 0 <= j < i ==> !variant_matches(self@, #[trigger] doc@.variants[j]),
            decreases doc.variants@.len() - i,
        {
            proof {
                assert(doc@.variants[i as int] == doc.variants@[i as int]@);
            }
            if self.matches_variant(&doc.variants[i]) {
                return true;
            }
            i += 1;
        }
        false
    }

    /// Whether the filter holds nothing but a text.
    pub fn is_text_only(&self) -> (r: bool)
        ensures
            r == text_only(self@),
    {
        self.text.is_some() && self.manufacturer.is_none() && self.applications.is_empty()
            && self.labels.is_empty() && self.ip_code.is_empty() && self.safety_class.is_empty()
            && self.ik_rating.is_empty() && self.product_form.is_empty()
            && self.adjustability.is_empty() && !self.has_variant_predicate()
    }
}

} // verus!
