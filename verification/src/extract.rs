//! From a product to the document that is indexed.
//!
//! Declared values come first. What the name of a variant tells fills
//! the gaps, and a light distribution file is believed before either in
//! photometric matters.

use crate::doc::{
    hint_of_distribution, no_identity, source_views, variant_views, DocId, DocView, FileMeta,
    FileMetaView, LuminaireDoc, PhotometricSymmetryHint, PhotometryStats, SourceRef, SourceView,
    VariantDoc, VariantView,
};
use crate::doc_id::{derive_doc_id, derived_id, opt_bytes};
use crate::fold::{insert_ids, insert_texts};
use crate::geometry::{mounting_of, variant_mounting, MountingFields};
use crate::ids::{rising, IdList};
use crate::locale::{gather_descriptions, is_gathered};
use crate::manufacturer::{normalise, ManufacturerName};
use crate::mining::{
    mine_variant_name, mined_figures_are_small, mined_from, nothing_mined, MinedFromName, MinedView,
};
use crate::photometry::{
    divide_by_power, either, flux_by_power, ldt_reading, ldt_stats, plausible, read_ldt,
    sanitize_photometry, sanitize_recessed_depth, stats_of_reading, LdtReading, LdtView,
    BEAM_MAX_DEG, DEPTH_MAX_MM, FLUX_MAX_LM, POWER_MAX_W,
};
use crate::product::{
    first_locale_value, format_version_string, photometric_files, positions, preferred_value,
    product_variant_views, version_text, Product, ProductVariant, ProductVariantView, ProductView,
};
use crate::quotient::{key_of_count, whole_key};
use crate::sets::rising_texts;
use crate::tables::{id_of, value_id, Axis};
use crate::text::{opt_text, texts, trim};
use vstd::prelude::*;

verus! {

// ---------------------------------------------------------------------
// Warnings
// ---------------------------------------------------------------------

/// What a product lacked. The document is usable all the same.
#[derive(Debug, PartialEq, Eq)]
pub enum ExtractWarning {
    /// No photometric figures are known of a variant.
    PhotometryMissing {
        /// Id of the variant.
        variant_id: String,
    },
    /// The manufacturer is blank.
    ManufacturerEmpty,
    /// There is neither a unique id nor content to take an identity
    /// from.
    DocIdUnavailable,
    /// A value is not in its closed list. It is kept as a keyword.
    NonCanonicalEnumValue {
        /// Id of the variant.
        variant_id: String,
        /// Name of the element.
        field: &'static str,
        /// The value, as written.
        value: String,
    },
    /// A light distribution file is declared and cannot be read or
    /// understood.
    PhotometryParseFailed {
        /// Id of the variant.
        variant_id: String,
        /// Id of the file.
        file_id: String,
    },
}

/// The view of an [`ExtractWarning`].
pub enum WarningView {
    /// No photometric figures are known of a variant.
    PhotometryMissing {
        /// Id of the variant.
        variant_id: Seq<char>,
    },
    /// The manufacturer is blank.
    ManufacturerEmpty,
    /// There is no identity.
    DocIdUnavailable,
    /// A value is not in its closed list.
    NonCanonicalEnumValue {
        /// Id of the variant.
        variant_id: Seq<char>,
        /// Name of the element.
        field: Seq<char>,
        /// The value.
        value: Seq<char>,
    },
    /// A light distribution file cannot be read or understood.
    PhotometryParseFailed {
        /// Id of the variant.
        variant_id: Seq<char>,
        /// Id of the file.
        file_id: Seq<char>,
    },
}

impl View for ExtractWarning {
    type V = WarningView;

    open spec fn view(&self) -> WarningView {
        match self {
            ExtractWarning::PhotometryMissing { variant_id } => WarningView::PhotometryMissing {
                variant_id: variant_id@,
            },
            ExtractWarning::ManufacturerEmpty => WarningView::ManufacturerEmpty,
            ExtractWarning::DocIdUnavailable => WarningView::DocIdUnavailable,
            ExtractWarning::NonCanonicalEnumValue { variant_id, field, value } =>
                WarningView::NonCanonicalEnumValue {
                variant_id: variant_id@,
                field: field@,
                value: value@,
            },
            ExtractWarning::PhotometryParseFailed { variant_id, file_id } =>
                WarningView::PhotometryParseFailed { variant_id: variant_id@, file_id: file_id@ },
        }
    }
}

/// The views of several warnings.
pub open spec fn warning_views(v: Seq<ExtractWarning>) -> Seq<WarningView> {
    v.map_values(|w: ExtractWarning| w@)
}

/// Adds a warning.
fn warn(warnings: &mut Vec<ExtractWarning>, w: ExtractWarning)
    ensures
        warning_views(final(warnings)@) == warning_views(old(warnings)@) + seq![w@],
{
    let ghost before = warning_views(warnings@);
    let ghost v = w@;
    warnings.push(w);
    proof {
        assert(warning_views(warnings@) =~= before + seq![v]);
    }
}

// ---------------------------------------------------------------------
// Declared values
// ---------------------------------------------------------------------

/// The values of closed lists that a variant declares.
pub struct TypedFacets {
    /// Application ids.
    pub applications: IdList,
    /// Label ids.
    pub labels: IdList,
    /// Adjustability ids.
    pub adjustability: IdList,
    /// IP code id.
    pub ip_code: Option<u8>,
    /// Safety class id.
    pub safety_class: Option<u8>,
    /// IK rating id.
    pub ik_rating: Option<u8>,
    /// Product form id.
    pub product_form: Option<u8>,
    /// Light distribution id.
    pub light_distribution: Option<u8>,
    /// The values as written.
    pub raw_keywords: Vec<String>,
}

/// The view of [`TypedFacets`].
pub struct TypedView {
    /// Application ids.
    pub applications: Seq<u8>,
    /// Label ids.
    pub labels: Seq<u8>,
    /// Adjustability ids.
    pub adjustability: Seq<u8>,
    /// IP code id.
    pub ip_code: Option<u8>,
    /// Safety class id.
    pub safety_class: Option<u8>,
    /// IK rating id.
    pub ik_rating: Option<u8>,
    /// Product form id.
    pub product_form: Option<u8>,
    /// Light distribution id.
    pub light_distribution: Option<u8>,
    /// The values as written.
    pub raw_keywords: Seq<Seq<char>>,
}

impl View for TypedFacets {
    type V = TypedView;

    open spec fn view(&self) -> TypedView {
        TypedView {
            applications: self.applications@,
            labels: self.labels@,
            adjustability: self.adjustability@,
            ip_code: self.ip_code,
            safety_class: self.safety_class,
            ik_rating: self.ik_rating,
            product_form: self.product_form,
            light_distribution: self.light_distribution,
            raw_keywords: texts(self.raw_keywords@),
        }
    }
}

/// The ids of those of `raws` that are values of an axis.
pub open spec fn canonical_ids(axis: Axis, raws: Seq<Seq<char>>) -> Seq<u8>
    decreases raws.len(),
{
    if raws.len() == 0 {
        Seq::empty()
    } else {
        match value_id(axis, raws.last()) {
            Some(id) => canonical_ids(axis, raws.drop_last()).push(id),
            None => canonical_ids(axis, raws.drop_last()),
        }
    }
}

/// A warning for each of `raws` that is no value of an axis.
pub open spec fn foreign_values(
    variant_id: Seq<char>,
    field: Seq<char>,
    axis: Axis,
    raws: Seq<Seq<char>>,
) -> Seq<WarningView>
    decreases raws.len(),
{
    if raws.len() == 0 {
        Seq::empty()
    } else {
        let front = foreign_values(variant_id, field, axis, raws.drop_last());
        if value_id(axis, raws.last()) is None {
            front.push(
                WarningView::NonCanonicalEnumValue { variant_id, field, value: raws.last() },
            )
        } else {
            front
        }
    }
}

/// A declared value that is not empty, as a list.
pub open spec fn declared(raw: Option<Seq<char>>) -> Seq<Seq<char>> {
    match raw {
        Some(s) => if s.len() > 0 {
            seq![s]
        } else {
            Seq::empty()
        },
        None => Seq::empty(),
    }
}

/// The id of a declared value.
pub open spec fn declared_id(axis: Axis, raw: Option<Seq<char>>) -> Option<u8> {
    match raw {
        Some(s) => if s.len() > 0 {
            value_id(axis, s)
        } else {
            None
        },
        None => None,
    }
}

/// What a variant declares.
pub open spec fn typed_of(v: ProductVariantView) -> TypedView {
    TypedView {
        applications: canonical_ids(Axis::Application, v.applications),
        labels: canonical_ids(Axis::Label, v.labels),
        adjustability: canonical_ids(Axis::Adjustability, v.adjustabilities),
        ip_code: declared_id(Axis::IpCode, v.ip_code),
        safety_class: declared_id(Axis::SafetyClass, v.safety_class),
        ik_rating: declared_id(Axis::IkRating, v.ik_rating),
        product_form: declared_id(Axis::ProductForm, v.product_form),
        light_distribution: declared_id(Axis::LightDistribution, v.light_distribution),
        raw_keywords: v.applications + v.labels + declared(v.product_form) + declared(v.ik_rating)
            + v.adjustabilities + declared(v.ip_code) + declared(v.safety_class) + declared(
            v.light_distribution,
        ),
    }
}

/// The warnings about what a variant declares.
pub open spec fn typed_warnings(v: ProductVariantView) -> Seq<WarningView> {
    foreign_values(v.id, "Application"@, Axis::Application, v.applications) + foreign_values(
        v.id,
        "Label"@,
        Axis::Label,
        v.labels,
    ) + foreign_values(v.id, "ProductForm"@, Axis::ProductForm, declared(v.product_form))
        + foreign_values(v.id, "IKRating"@, Axis::IkRating, declared(v.ik_rating))
        + foreign_values(v.id, "Adjustability"@, Axis::Adjustability, v.adjustabilities)
        + foreign_values(v.id, "IngressProtectionIPCode"@, Axis::IpCode, declared(v.ip_code))
        + foreign_values(
        v.id,
        "ElectricalSafetyClass"@,
        Axis::SafetyClass,
        declared(v.safety_class),
    ) + foreign_values(
        v.id,
        "LightDistribution"@,
        Axis::LightDistribution,
        declared(v.light_distribution),
    )
}

/// A value is warned about exactly where it has no id.
pub proof fn ids_and_warnings_share_the_values(
    variant_id: Seq<char>,
    field: Seq<char>,
    axis: Axis,
    raws: Seq<Seq<char>>,
)
    ensures
        canonical_ids(axis, raws).len() + foreign_values(variant_id, field, axis, raws).len()
            == raws.len(),
    decreases raws.len(),
{
    if raws.len() > 0 {
        ids_and_warnings_share_the_values(variant_id, field, axis, raws.drop_last());
    }
}

/// An id is among those of a list exactly if one of its values has it.
pub proof fn listed_ids_are_declared(axis: Axis, raws: Seq<Seq<char>>, id: u8)
    ensures
        canonical_ids(axis, raws).contains(id) <==> exists|i: int|
            0 <= i < raws.len() && value_id(axis, #[trigger] raws[i]) == Some(id),
    decreases raws.len(),
{
    if raws.len() > 0 {
        let front = raws.drop_last();
        listed_ids_are_declared(axis, front, id);
        let had = canonical_ids(axis, front);
        let all = canonical_ids(axis, raws);
        if had.contains(id) {
            let k = choose|k: int| 0 <= k < had.len() && had[k] == id;
            assert(all[k] == id);
            let i = choose|i: int|
                0 <= i < front.len() && value_id(axis, #[trigger] front[i]) == Some(id);
            assert(raws[i] == front[i]);
        }
        if value_id(axis, raws.last()) == Some(id) {
            assert(all[had.len() as int] == id);
            assert(value_id(axis, raws[raws.len() - 1]) == Some(id));
        }
        if all.contains(id) && !had.contains(id) {
            let k = choose|k: int| 0 <= k < all.len() && all[k] == id;
            if k < had.len() {
                assert(had[k] == id);
            }
        }
        if exists|i: int| 0 <= i < raws.len() && value_id(axis, #[trigger] raws[i]) == Some(id) {
            let i = choose|i: int|
                0 <= i < raws.len() && value_id(axis, #[trigger] raws[i]) == Some(id);
            if i < front.len() {
                assert(front[i] == raws[i]);
            }
        }
    }
}

/// A value of a list is warned about exactly if it is in no closed list.
pub proof fn foreign_values_are_named(
    variant_id: Seq<char>,
    field: Seq<char>,
    axis: Axis,
    raws: Seq<Seq<char>>,
    value: Seq<char>,
)
    ensures
        foreign_values(variant_id, field, axis, raws).contains(
            WarningView::NonCanonicalEnumValue { variant_id, field, value },
        ) <==> raws.contains(value) && value_id(axis, value) is None,
    decreases raws.len(),
{
    let w = WarningView::NonCanonicalEnumValue { variant_id, field, value };
    let all = foreign_values(variant_id, field, axis, raws);
    if raws.len() > 0 {
        let front = raws.drop_last();
        foreign_values_are_named(variant_id, field, axis, front, value);
        let had = foreign_values(variant_id, field, axis, front);
        if had.contains(w) {
            let k = choose|k: int| 0 <= k < had.len() && had[k] == w;
            assert(all[k] == w);
            let i = choose|i: int| 0 <= i < front.len() && front[i] == value;
            assert(raws[i] == value);
        }
        if raws.last() == value && value_id(axis, value) is None {
            assert(all[had.len() as int] == w);
            assert(raws[raws.len() - 1] == value);
        }
        if all.contains(w) && !had.contains(w) {
            let k = choose|k: int| 0 <= k < all.len() && all[k] == w;
            if k < had.len() {
                assert(had[k] == w);
            }
            assert(raws[raws.len() - 1] == value);
        }
        if raws.contains(value) && raws.last() != value {
            let i = choose|i: int| 0 <= i < raws.len() && raws[i] == value;
            assert(front[i] == value);
        }
    }
}

/// A single declared value gives its id, and an empty one gives none.
pub proof fn single_values_give_their_ids(v: ProductVariantView, s: Seq<char>)
    requires
        s.len() > 0,
    ensures
        v.ip_code == Some(s) ==> typed_of(v).ip_code == value_id(Axis::IpCode, s),
        v.safety_class == Some(s) ==> typed_of(v).safety_class == value_id(Axis::SafetyClass, s),
        v.ik_rating == Some(s) ==> typed_of(v).ik_rating == value_id(Axis::IkRating, s),
        v.product_form == Some(s) ==> typed_of(v).product_form == value_id(Axis::ProductForm, s),
        v.light_distribution == Some(s) ==> typed_of(v).light_distribution == value_id(
            Axis::LightDistribution,
            s,
        ),
        v.ip_code is None || v.ip_code->0.len() == 0 ==> typed_of(v).ip_code is None,
        v.safety_class is None || v.safety_class->0.len() == 0 ==> typed_of(v).safety_class is None,
        v.ik_rating is None || v.ik_rating->0.len() == 0 ==> typed_of(v).ik_rating is None,
        v.product_form is None || v.product_form->0.len() == 0 ==> typed_of(v).product_form is None,
        v.light_distribution is None || v.light_distribution->0.len() == 0 ==> typed_of(
            v,
        ).light_distribution is None,
{
}

/// Whether a variant declares a value, in whatever field.
pub open spec fn declares(v: ProductVariantView, s: Seq<char>) -> bool {
    ||| v.applications.contains(s)
    ||| v.labels.contains(s)
    ||| v.adjustabilities.contains(s)
    ||| s.len() > 0 && (v.product_form == Some(s) || v.ik_rating == Some(s) || v.ip_code == Some(s)
        || v.safety_class == Some(s) || v.light_distribution == Some(s))
}

/// What a variant declares can be searched for as it is written, whether
/// or not it is in a closed list.
#[verifier::spinoff_prover]
pub proof fn declared_values_are_keywords(v: ProductVariantView, s: Seq<char>)
    ensures
        typed_of(v).raw_keywords.contains(s) <==> declares(v, s),
{
    let (a, b, c, d) = (v.applications, v.labels, declared(v.product_form), declared(v.ik_rating));
    let (e, f, g, h) = (
        v.adjustabilities,
        declared(v.ip_code),
        declared(v.safety_class),
        declared(v.light_distribution),
    );
    holds_either(a, b, s);
    holds_either(a + b, c, s);
    holds_either(a + b + c, d, s);
    holds_either(a + b + c + d, e, s);
    holds_either(a + b + c + d + e, f, s);
    holds_either(a + b + c + d + e + f, g, s);
    holds_either(a + b + c + d + e + f + g, h, s);
    declared_holds(v.product_form, s);
    declared_holds(v.ik_rating, s);
    declared_holds(v.ip_code, s);
    declared_holds(v.safety_class, s);
    declared_holds(v.light_distribution, s);
}

proof fn declared_holds(raw: Option<Seq<char>>, s: Seq<char>)
    ensures
        declared(raw).contains(s) <==> s.len() > 0 && raw == Some(s),
{
    if s.len() > 0 && raw == Some(s) {
        assert(declared(raw)[0] == s);
    }
}

proof fn holds_either<T>(a: Seq<T>, b: Seq<T>, x: T)
    ensures
        (a + b).contains(x) <==> a.contains(x) || b.contains(x),
{
    if a.contains(x) {
        let i = choose|i: int| 0 <= i < a.len() && a[i] == x;
        assert((a + b)[i] == x);
    }
    if b.contains(x) {
        let i = choose|i: int| 0 <= i < b.len() && b[i] == x;
        assert((a + b)[a.len() + i] == x);
    }
}

/// A declared value that is in no closed list is warned about under the
/// name of its element.
#[verifier::spinoff_prover]
pub proof fn foreign_declarations_are_warned_about(v: ProductVariantView, s: Seq<char>)
    requires
        s.len() > 0,
    ensures
        ({
            let warned = |field: Seq<char>|
                typed_warnings(v).contains(
                    WarningView::NonCanonicalEnumValue { variant_id: v.id, field, value: s },
                );
            &&& v.applications.contains(s) && value_id(Axis::Application, s) is None ==> warned(
                "Application"@,
            )
            &&& v.labels.contains(s) && value_id(Axis::Label, s) is None ==> warned("Label"@)
            &&& v.adjustabilities.contains(s) && value_id(Axis::Adjustability, s) is None ==> warned(
                "Adjustability"@,
            )
            &&& v.product_form == Some(s) && value_id(Axis::ProductForm, s) is None ==> warned(
                "ProductForm"@,
            )
            &&& v.ik_rating == Some(s) && value_id(Axis::IkRating, s) is None ==> warned("IKRating"@)
            &&& v.ip_code == Some(s) && value_id(Axis::IpCode, s) is None ==> warned(
                "IngressProtectionIPCode"@,
            )
            &&& v.safety_class == Some(s) && value_id(Axis::SafetyClass, s) is None ==> warned(
                "ElectricalSafetyClass"@,
            )
            &&& v.light_distribution == Some(s) && value_id(Axis::LightDistribution, s) is None
                ==> warned("LightDistribution"@)
        }),
{
    let a = foreign_values(v.id, "Application"@, Axis::Application, v.applications);
    let b = foreign_values(v.id, "Label"@, Axis::Label, v.labels);
    let c = foreign_values(v.id, "ProductForm"@, Axis::ProductForm, declared(v.product_form));
    let d = foreign_values(v.id, "IKRating"@, Axis::IkRating, declared(v.ik_rating));
    let e = foreign_values(v.id, "Adjustability"@, Axis::Adjustability, v.adjustabilities);
    let f = foreign_values(v.id, "IngressProtectionIPCode"@, Axis::IpCode, declared(v.ip_code));
    let g = foreign_values(
        v.id,
        "ElectricalSafetyClass"@,
        Axis::SafetyClass,
        declared(v.safety_class),
    );
    let h = foreign_values(
        v.id,
        "LightDistribution"@,
        Axis::LightDistribution,
        declared(v.light_distribution),
    );
    assert(typed_warnings(v) == a + b + c + d + e + f + g + h);
    assert forall|w: WarningView| #[trigger] (a + b + c + d + e + f + g + h).contains(w)
        <==> a.contains(w) || b.contains(w) || c.contains(w) || d.contains(w) || e.contains(w)
        || f.contains(w) || g.contains(w) || h.contains(w) by {
        holds_either(a, b, w);
        holds_either(a + b, c, w);
        holds_either(a + b + c, d, w);
        holds_either(a + b + c + d, e, w);
        holds_either(a + b + c + d + e, f, w);
        holds_either(a + b + c + d + e + f, g, w);
        holds_either(a + b + c + d + e + f + g, h, w);
    }
    foreign_values_are_named(v.id, "Application"@, Axis::Application, v.applications, s);
    foreign_values_are_named(v.id, "Label"@, Axis::Label, v.labels, s);
    foreign_values_are_named(
        v.id,
        "ProductForm"@,
        Axis::ProductForm,
        declared(v.product_form),
        s,
    );
    foreign_values_are_named(v.id, "IKRating"@, Axis::IkRating, declared(v.ik_rating), s);
    foreign_values_are_named(v.id, "Adjustability"@, Axis::Adjustability, v.adjustabilities, s);
    foreign_values_are_named(
        v.id,
        "IngressProtectionIPCode"@,
        Axis::IpCode,
        declared(v.ip_code),
        s,
    );
    foreign_values_are_named(
        v.id,
        "ElectricalSafetyClass"@,
        Axis::SafetyClass,
        declared(v.safety_class),
        s,
    );
    foreign_values_are_named(
        v.id,
        "LightDistribution"@,
        Axis::LightDistribution,
        declared(v.light_distribution),
        s,
    );
    declared_holds(v.product_form, s);
    declared_holds(v.ik_rating, s);
    declared_holds(v.ip_code, s);
    declared_holds(v.safety_class, s);
    declared_holds(v.light_distribution, s);
}

/// Takes in a list of values.
fn take_list(
    axis: Axis,
    field: &'static str,
    raws: &Vec<String>,
    variant_id: &String,
    keywords: &mut Vec<String>,
    warnings: &mut Vec<ExtractWarning>,
) -> (ids: IdList)
    ensures
        ids@ == canonical_ids(axis, texts(raws@)),
        texts(final(keywords)@) == texts(old(keywords)@) + texts(raws@),
        warning_views(final(warnings)@) == warning_views(old(warnings)@) + foreign_values(
            variant_id@,
            field@,
            axis,
            texts(raws@),
        ),
{
    let mut ids: IdList = IdList::new();
    let ghost all = texts(raws@);
    let ghost kw = texts(keywords@);
    let ghost ws = warning_views(warnings@);
    let mut i: usize = 0;
    proof {
        assert(all.take(0) =~= Seq::empty());
        assert(kw + all.take(0) =~= kw);
        assert(ws + Seq::<WarningView>::empty() =~= ws);
    }
    while i < raws.len()
        invariant
            i <= raws@.len(),
            all == texts(raws@),
            ids@ == canonical_ids(axis, all.take(i as int)),
            texts(keywords@) == kw + all.take(i as int),
            warning_views(warnings@) == ws + foreign_values(
                variant_id@,
                field@,
                axis,
                all.take(i as int),
            ),
        decreases raws@.len() - i,
    {
        proof {
            assert(all[i as int] == raws@[i as int]@);
            assert(all.take(i + 1).drop_last() =~= all.take(i as int));
            assert(all.take(i + 1).last() == all[i as int]);
        }
        let ghost had = texts(keywords@);
        keywords.push(raws[i].clone());
        proof {
            assert(texts(keywords@) =~= had.push(all[i as int]));
            assert(had.push(all[i as int]) =~= kw + all.take(i + 1));
        }
        match id_of(axis, raws[i].as_str()) {
            Some(id) => {
                ids.push(id);
            },
            None => {
                let ghost seen = warning_views(warnings@);
                warn(
                    warnings,
                    ExtractWarning::NonCanonicalEnumValue {
                        variant_id: variant_id.clone(),
                        field,
                        value: raws[i].clone(),
                    },
                );
                proof {
                    let w = WarningView::NonCanonicalEnumValue {
                        variant_id: variant_id@,
                        field: field@,
                        value: all[i as int],
                    };
                    assert(warning_views(warnings@) == seen + seq![w]);
                    assert(seen + seq![w] =~= ws + foreign_values(
                        variant_id@,
                        field@,
                        axis,
                        all.take(i as int),
                    ).push(w));
                }
            },
        }
        i += 1;
    }
    proof {
        assert(all.take(all.len() as int) =~= all);
    }
    ids
}

/// Takes in one value.
fn take_single(
    axis: Axis,
    field: &'static str,
    raw: &Option<String>,
    variant_id: &String,
    keywords: &mut Vec<String>,
    warnings: &mut Vec<ExtractWarning>,
) -> (id: Option<u8>)
    ensures
        id == declared_id(axis, opt_text(*raw)),
        texts(final(keywords)@) == texts(old(keywords)@) + declared(opt_text(*raw)),
        warning_views(final(warnings)@) == warning_views(old(warnings)@) + foreign_values(
            variant_id@,
            field@,
            axis,
            declared(opt_text(*raw)),
        ),
{
    let ghost kw = texts(keywords@);
    let ghost ws = warning_views(warnings@);
    proof {
        assert(kw + Seq::<Seq<char>>::empty() =~= kw);
        assert(ws + Seq::<WarningView>::empty() =~= ws);
    }
    match raw {
        Some(s) => {
            if s.as_str().is_empty() {
                return None;
            }
            let mut one: Vec<String> = Vec::new();
            one.push(s.clone());
            proof {
                assert(texts(one@) =~= declared(opt_text(*raw)));
                assert(declared(opt_text(*raw)).drop_last() =~= Seq::empty());
                reveal_with_fuel(canonical_ids, 2);
            }
            let ids: IdList = take_list(axis, field, &one, variant_id, keywords, warnings);
            if ids.len() > 0 {
                Some(ids.get(0))
            } else {
                None
            }
        },
        None => None,
    }
}

impl TypedFacets {
    /// What a variant declares, with warnings for the values that are in
    /// no list.
    pub fn from_variant(v: &ProductVariant, warnings: &mut Vec<ExtractWarning>) -> (r: TypedFacets)
        ensures
            r@ == typed_of(v@),
            warning_views(final(warnings)@) == warning_views(old(warnings)@) + typed_warnings(v@),
    {
        let ghost ws = warning_views(warnings@);
        let mut kw: Vec<String> = Vec::new();
        proof {
            assert(texts(kw@) =~= Seq::empty());
            assert(Seq::<Seq<char>>::empty() + v@.applications =~= v@.applications);
        }
        let applications: IdList = take_list(
            Axis::Application,
            "Application",
            &v.applications,
            &v.id,
            &mut kw,
            warnings,
        );
        let labels: IdList = take_list(Axis::Label, "Label", &v.labels, &v.id, &mut kw, warnings);
        let product_form: Option<u8> = take_single(
            Axis::ProductForm,
            "ProductForm",
            &v.product_form,
            &v.id,
            &mut kw,
            warnings,
        );
        let ik_rating: Option<u8> = take_single(
            Axis::IkRating,
            "IKRating",
            &v.ik_rating,
            &v.id,
            &mut kw,
            warnings,
        );
        let adjustability: IdList = take_list(
            Axis::Adjustability,
            "Adjustability",
            &v.adjustabilities,
            &v.id,
            &mut kw,
            warnings,
        );
        let ip_code: Option<u8> = take_single(
            Axis::IpCode,
            "IngressProtectionIPCode",
            &v.ip_code,
            &v.id,
            &mut kw,
            warnings,
        );
        let safety_class: Option<u8> = take_single(
            Axis::SafetyClass,
            "ElectricalSafetyClass",
            &v.safety_class,
            &v.id,
            &mut kw,
            warnings,
        );
        let light_distribution: Option<u8> = take_single(
            Axis::LightDistribution,
            "LightDistribution",
            &v.light_distribution,
            &v.id,
            &mut kw,
            warnings,
        );
        proof {
            assert(warning_views(warnings@) =~= ws + typed_warnings(v@));
        }
        TypedFacets {
            applications,
            labels,
            adjustability,
            ip_code,
            safety_class,
            ik_rating,
            product_form,
            light_distribution,
            raw_keywords: kw,
        }
    }
}

// ---------------------------------------------------------------------
// Photometry
// ---------------------------------------------------------------------

/// The key of a figure that a name tells.
pub open spec fn figure_key(n: Option<u32>) -> Option<i32> {
    match n {
        Some(x) => Some(whole_key(x as nat)),
        None => None,
    }
}

/// The symmetry that a declared light distribution implies, where one is
/// declared.
pub open spec fn declared_symmetry(light_distribution: Option<u8>) -> PhotometricSymmetryHint {
    match light_distribution {
        Some(id) => hint_of_distribution(id),
        None => PhotometricSymmetryHint::Unknown,
    }
}

/// The figures that a name tells; none where it tells nothing.
pub open spec fn mined_stats(m: MinedView, light_distribution: Option<u8>) -> Option<
    PhotometryStats,
> {
    if m.flux_lm is None && m.power_w is None && m.cct_k is None && m.cri_ra_min is None
        && m.beam_deg is None && light_distribution is None {
        None
    } else {
        Some(
            PhotometryStats {
                flux_lm: figure_key(m.flux_lm),
                power_w: figure_key(m.power_w),
                efficacy_lm_w: flux_by_power(figure_key(m.flux_lm), figure_key(m.power_w)),
                cct_k: m.cct_k,
                cri_ra: m.cri_ra_min,
                r9: None,
                beam_deg: figure_key(m.beam_deg),
                field_deg: None,
                ulor: None,
                dlor: None,
                symmetry: declared_symmetry(light_distribution),
                light_distribution,
            },
        )
    }
}

/// The figures of a light distribution file, with gaps filled by those
/// of the name. A declared light distribution is believed before that of
/// the file, and stands alone where there is nothing else.
pub open spec fn merged_stats(
    ldt: Option<PhotometryStats>,
    mined: Option<PhotometryStats>,
    light_distribution: Option<u8>,
) -> Option<PhotometryStats> {
    match (ldt, mined) {
        (None, None) => mined_stats(nothing_mined(), light_distribution),
        (Some(l), Some(m)) => Some(
            PhotometryStats {
                flux_lm: either(l.flux_lm, m.flux_lm),
                power_w: either(l.power_w, m.power_w),
                efficacy_lm_w: either(l.efficacy_lm_w, m.efficacy_lm_w),
                cct_k: either(l.cct_k, m.cct_k),
                cri_ra: either(l.cri_ra, m.cri_ra),
                r9: either(l.r9, m.r9),
                beam_deg: either(l.beam_deg, m.beam_deg),
                field_deg: either(l.field_deg, m.field_deg),
                ulor: either(l.ulor, m.ulor),
                dlor: either(l.dlor, m.dlor),
                symmetry: l.symmetry,
                light_distribution: either(m.light_distribution, l.light_distribution),
            },
        ),
        _ => either(ldt, mined),
    }
}

/// The key of a figure that a name tells.
fn key_of_figure(n: Option<u32>) -> (r: Option<i32>)
    requires
        n matches Some(x) ==> x < 0x100_0000,
    ensures
        r == figure_key(n),
{
    match n {
        Some(x) => Some(key_of_count(x)),
        None => None,
    }
}

/// Whether the figures that a name tells have exact keys.
pub open spec fn small_figures(m: MinedView) -> bool {
    &&& m.flux_lm matches Some(x) ==> x < 0x100_0000
    &&& m.power_w matches Some(x) ==> x < 0x100_0000
    &&& m.beam_deg matches Some(x) ==> x < 0x100_0000
}

/// The figures that a name tells.
pub fn build_photometry(m: &MinedFromName, light_distribution: Option<u8>) -> (r: Option<
    PhotometryStats,
>)
    requires
        small_figures(m@),
    ensures
        r == mined_stats(m@, light_distribution),
{
    if m.flux_lm.is_none() && m.power_w.is_none() && m.cct_k.is_none() && m.cri_ra_min.is_none()
        && m.beam_deg.is_none() && light_distribution.is_none() {
        return None;
    }
    let flux_lm: Option<i32> = key_of_figure(m.flux_lm);
    let power_w: Option<i32> = key_of_figure(m.power_w);
    let symmetry: PhotometricSymmetryHint = match light_distribution {
        Some(id) => PhotometricSymmetryHint::from_light_distribution_id(id),
        None => PhotometricSymmetryHint::Unknown,
    };
    Some(
        PhotometryStats {
            flux_lm,
            power_w,
            efficacy_lm_w: divide_by_power(flux_lm, power_w),
            cct_k: m.cct_k,
            cri_ra: m.cri_ra_min,
            r9: None,
            beam_deg: key_of_figure(m.beam_deg),
            field_deg: None,
            ulor: None,
            dlor: None,
            symmetry,
            light_distribution,
        },
    )
}

/// The first of two that is there.
fn or<T: Copy>(a: Option<T>, b: Option<T>) -> (r: Option<T>)
    ensures
        r == either(a, b),
{
    match a {
        Some(x) => Some(x),
        None => b,
    }
}

/// The figures of a file, with gaps filled by those of a name.
pub fn merge_photometry(
    ldt: Option<PhotometryStats>,
    mined: Option<PhotometryStats>,
    light_distribution: Option<u8>,
) -> (r: Option<PhotometryStats>)
    ensures
        r == merged_stats(ldt, mined, light_distribution),
{
    match (ldt, mined) {
        (None, None) => build_photometry(&MinedFromName::default(), light_distribution),
        (Some(l), Some(m)) => Some(
            PhotometryStats {
                flux_lm: or(l.flux_lm, m.flux_lm),
                power_w: or(l.power_w, m.power_w),
                efficacy_lm_w: or(l.efficacy_lm_w, m.efficacy_lm_w),
                cct_k: or(l.cct_k, m.cct_k),
                cri_ra: or(l.cri_ra, m.cri_ra),
                r9: or(l.r9, m.r9),
                beam_deg: or(l.beam_deg, m.beam_deg),
                field_deg: or(l.field_deg, m.field_deg),
                ulor: or(l.ulor, m.ulor),
                dlor: or(l.dlor, m.dlor),
                symmetry: l.symmetry,
                light_distribution: or(m.light_distribution, l.light_distribution),
            },
        ),
        (Some(l), None) => Some(l),
        (None, m) => m,
    }
}

/// A figure of the light distribution file stands, whatever the name
/// says.
pub proof fn file_figures_stand(
    l: PhotometryStats,
    mined: Option<PhotometryStats>,
    light_distribution: Option<u8>,
)
    ensures
        merged_stats(Some(l), mined, light_distribution) matches Some(r) && {
            &&& l.flux_lm is Some ==> r.flux_lm == l.flux_lm
            &&& l.power_w is Some ==> r.power_w == l.power_w
            &&& l.efficacy_lm_w is Some ==> r.efficacy_lm_w == l.efficacy_lm_w
            &&& l.cct_k is Some ==> r.cct_k == l.cct_k
            &&& l.cri_ra is Some ==> r.cri_ra == l.cri_ra
            &&& l.r9 is Some ==> r.r9 == l.r9
            &&& l.beam_deg is Some ==> r.beam_deg == l.beam_deg
            &&& l.field_deg is Some ==> r.field_deg == l.field_deg
            &&& l.ulor is Some ==> r.ulor == l.ulor
            &&& l.dlor is Some ==> r.dlor == l.dlor
            &&& r.symmetry == l.symmetry
        },
{
}

/// A figure that the name tells appears where the file gives none, and
/// nothing appears that neither gives.
pub proof fn name_fills_the_gaps(l: PhotometryStats, m: PhotometryStats, declared: Option<u8>)
    ensures
        merged_stats(Some(l), Some(m), declared) matches Some(r) && {
            &&& l.flux_lm is None ==> r.flux_lm == m.flux_lm
            &&& l.power_w is None ==> r.power_w == m.power_w
            &&& l.efficacy_lm_w is None ==> r.efficacy_lm_w == m.efficacy_lm_w
            &&& l.cct_k is None ==> r.cct_k == m.cct_k
            &&& l.cri_ra is None ==> r.cri_ra == m.cri_ra
            &&& l.r9 is None ==> r.r9 == m.r9
            &&& l.beam_deg is None ==> r.beam_deg == m.beam_deg
            &&& l.field_deg is None ==> r.field_deg == m.field_deg
            &&& l.ulor is None ==> r.ulor == m.ulor
            &&& l.dlor is None ==> r.dlor == m.dlor
            &&& m.light_distribution is Some ==> r.light_distribution == m.light_distribution
            &&& m.light_distribution is None ==> r.light_distribution == l.light_distribution
        },
{
}

/// What only one of file and name gives is kept as it is.
pub proof fn lone_figures_are_kept(s: PhotometryStats, declared: Option<u8>)
    ensures
        merged_stats(Some(s), None, declared) == Some(s),
        merged_stats(None, Some(s), declared) == Some(s),
{
}

/// A declared light distribution alone gives figures that hold nothing
/// else; without one there are none.
pub proof fn declared_distribution_stands_alone(declared: Option<u8>)
    ensures
        merged_stats(None, None, declared) is Some <==> declared is Some,
        merged_stats(None, None, declared) matches Some(r) ==> {
            &&& r.light_distribution == declared
            &&& r.flux_lm is None
            &&& r.power_w is None
            &&& r.efficacy_lm_w is None
            &&& r.cct_k is None
            &&& r.cri_ra is None
            &&& r.r9 is None
            &&& r.beam_deg is None
            &&& r.field_deg is None
            &&& r.ulor is None
            &&& r.dlor is None
        },
{
}

/// What the name tells becomes figures, each under its own heading, and a
/// name that tells nothing gives none.
pub proof fn mined_figures_keep_their_places(m: MinedView, declared: Option<u8>)
    ensures
        mined_stats(m, declared) is None <==> m.flux_lm is None && m.power_w is None && m.cct_k is None
            && m.cri_ra_min is None && m.beam_deg is None && declared is None,
        mined_stats(m, declared) matches Some(r) ==> {
            &&& r.flux_lm is Some <==> m.flux_lm is Some
            &&& m.flux_lm is Some ==> r.flux_lm->0 == whole_key(m.flux_lm->0 as nat)
            &&& r.power_w is Some <==> m.power_w is Some
            &&& m.power_w is Some ==> r.power_w->0 == whole_key(m.power_w->0 as nat)
            &&& r.beam_deg is Some <==> m.beam_deg is Some
            &&& m.beam_deg is Some ==> r.beam_deg->0 == whole_key(m.beam_deg->0 as nat)
            &&& r.cct_k == m.cct_k
            &&& r.cri_ra == m.cri_ra_min
            &&& r.light_distribution == declared
            &&& declared is None ==> r.symmetry == PhotometricSymmetryHint::Unknown
            &&& declared matches Some(id) ==> r.symmetry == hint_of_distribution(id)
            &&& r.efficacy_lm_w is Some ==> m.flux_lm is Some && m.power_w is Some
            &&& r.r9 is None && r.field_deg is None && r.ulor is None && r.dlor is None
        },
{
}

/// The efficacy of a name is its flux by its power, where the power is
/// positive.
pub proof fn mined_efficacy_is_flux_by_power(m: MinedView, declared: Option<u8>)
    requires
        m.flux_lm is Some,
        m.power_w is Some,
    ensures
        ({
            let (f, p) = (whole_key(m.flux_lm->0 as nat), whole_key(m.power_w->0 as nat));
            let r = mined_stats(m, declared)->0;
            &&& 0 < p <= 0x7f80_0000 ==> r.efficacy_lm_w == Some(crate::quotient::quotient_of(f, p))
            &&& p <= 0 ==> r.efficacy_lm_w is None
        }),
{
}

/// What came of reading the first light distribution file of a product.
#[derive(Debug)]
pub enum LdtFile {
    /// It could not be read.
    Unreadable,
    /// It is not a light distribution file.
    Malformed,
    /// What it says.
    Read(LdtReading),
}

/// The model of [`LdtFile`].
pub ghost enum LdtFileView {
    /// Not readable.
    Unreadable,
    /// Not a light distribution file.
    Malformed,
    /// What the file says.
    Read(LdtView),
}

impl View for LdtFile {
    type V = LdtFileView;

    open spec fn view(&self) -> LdtFileView {
        match *self {
            LdtFile::Unreadable => LdtFileView::Unreadable,
            LdtFile::Malformed => LdtFileView::Malformed,
            LdtFile::Read(l) => LdtFileView::Read(l@),
        }
    }
}

/// The first light distribution file of a product, as it came out of the
/// archive.
#[derive(Debug)]
pub enum LdtText {
    /// It could not be read.
    Unreadable,
    /// Its text.
    Text(String),
}

/// What comes of reading a light distribution file.
pub open spec fn ldt_of(t: LdtText) -> LdtFileView {
    match t {
        LdtText::Unreadable => LdtFileView::Unreadable,
        LdtText::Text(s) => match ldt_reading(s@) {
            Some(l) => LdtFileView::Read(l),
            None => LdtFileView::Malformed,
        },
    }
}

/// The figures of the light distribution file, where the product
/// declares one.
pub open spec fn file_stats(p: ProductView, ldt: LdtFileView) -> Option<PhotometryStats> {
    match ldt {
        LdtFileView::Read(l) => if photometric_files(p.files).len() > 0 {
            Some(ldt_stats(l))
        } else {
            None
        },
        _ => None,
    }
}

/// The warning about the light distribution file.
pub open spec fn file_warning(p: ProductView, v: ProductVariantView, ldt: LdtFileView) -> Seq<
    WarningView,
> {
    if photometric_files(p.files).len() > 0 && !(ldt is Read) {
        seq![
            WarningView::PhotometryParseFailed {
                variant_id: v.id,
                file_id: p.files[photometric_files(p.files)[0]].id,
            },
        ]
    } else {
        Seq::empty()
    }
}

/// The figures of the light distribution file, with a warning where the
/// product declares one that gave none.
fn resolve_ldt_for_variant(
    p: &Product,
    v: &ProductVariant,
    ldt: &LdtFile,
    warnings: &mut Vec<ExtractWarning>,
) -> (r: Option<PhotometryStats>)
    ensures
        r == file_stats(p@, ldt@),
        warning_views(final(warnings)@) == warning_views(old(warnings)@) + file_warning(
            p@,
            v@,
            ldt@,
        ),
{
    let ghost ws = warning_views(warnings@);
    proof {
        assert(ws + Seq::<WarningView>::empty() =~= ws);
    }
    let found: Vec<usize> = p.get_phot_files();
    if found.len() == 0 {
        proof {
            assert(positions(found@).len() == 0);
        }
        return None;
    }
    proof {
        assert(positions(found@)[0] == found@[0]);
        assert(p@.files[found@[0] as int] == p.files@[found@[0] as int]@);
    }
    match ldt {
        LdtFile::Read(l) => Some(stats_of_reading(l)),
        _ => {
            warn(
                warnings,
                ExtractWarning::PhotometryParseFailed {
                    variant_id: v.id.clone(),
                    file_id: p.files[found[0]].id.clone(),
                },
            );
            None
        },
    }
}

// ---------------------------------------------------------------------
// Variants
// ---------------------------------------------------------------------

/// The name of a variant, or its id where it has none.
pub open spec fn display_name(v: ProductVariantView) -> Seq<char> {
    match preferred_value(v.name) {
        Some(s) => s,
        None => v.id,
    }
}

/// What the name of a variant tells.
pub open spec fn mined_of(v: ProductVariantView) -> MinedView {
    mined_from(display_name(v))
}

/// The photometric figures of a variant.
pub open spec fn variant_stats(p: ProductView, v: ProductVariantView, ldt: LdtFileView) -> Option<
    PhotometryStats,
> {
    let ld = typed_of(v).light_distribution;
    match merged_stats(file_stats(p, ldt), mined_stats(mined_of(v), ld), ld) {
        Some(s) => Some(plausible(s)),
        None => None,
    }
}

/// The first lamp type, of the changeable light sources and then of the
/// fixed ones, that is in the closed list.
pub open spec fn first_canonical(axis: Axis, raws: Seq<Seq<char>>, i: int) -> Option<u8>
    decreases raws.len() - i,
{
    if i < 0 || i >= raws.len() {
        None
    } else if value_id(axis, raws[i]) is Some {
        value_id(axis, raws[i])
    } else {
        first_canonical(axis, raws, i + 1)
    }
}

/// The lamp type of a product.
pub open spec fn lamp_type_of(p: ProductView) -> Option<u8> {
    either(
        first_canonical(Axis::LampType, p.changeable_lamp_types, 0),
        first_canonical(Axis::LampType, p.fixed_lamp_types, 0),
    )
}

/// Those of the first `n` interfaces that are in the closed list, each
/// once, where it is first declared.
pub open spec fn interfaces_of(raws: Seq<Seq<char>>, n: int) -> Seq<u8>
    decreases n,
{
    if n <= 0 {
        Seq::empty()
    } else {
        let front = interfaces_of(raws, n - 1);
        match value_id(Axis::ControlGearInterface, raws[n - 1]) {
            Some(id) => if front.contains(id) {
                front
            } else {
                front.push(id)
            },
            None => front,
        }
    }
}

/// No interface is listed twice.
pub proof fn interfaces_are_distinct(raws: Seq<Seq<char>>, n: int)
    requires
        0 <= n <= raws.len(),
    ensures
        interfaces_of(raws, n).no_duplicates(),
    decreases n,
{
    if n > 0 {
        interfaces_are_distinct(raws, n - 1);
    }
}

/// The `i`th variant of the document.
pub open spec fn variant_doc(p: ProductView, ldt: LdtFileView, i: int) -> VariantView {
    let v = p.variants[i];
    let m = mounting_of(v.mountings);
    VariantView {
        id: (i % 65536) as u16,
        name: display_name(v),
        photometry: variant_stats(p, v, ldt),
        mounting_place: m.place,
        mounting_type: m.kind,
        recessed_depth_mm: match m.recessed_depth_mm {
            Some(d) => if d <= DEPTH_MAX_MM {
                Some(d)
            } else {
                None
            },
            None => None,
        },
        has_3d: v.model_geometry,
        lamp_type: lamp_type_of(p),
        control_gear_interfaces: interfaces_of(
            p.control_gear_interfaces,
            p.control_gear_interfaces.len() as int,
        ),
        has_emergency_lighting: v.has_emergency,
        emergency_lighting_type: match v.emergency_lighting_type {
            Some(s) => if v.has_emergency {
                value_id(Axis::EmergencyLightingType, s)
            } else {
                None
            },
            None => None,
        },
        emitter_count: 0,
        source_index: 0,
    }
}

/// The warnings about one variant.
pub open spec fn variant_warnings(p: ProductView, v: ProductVariantView, ldt: LdtFileView) -> Seq<
    WarningView,
> {
    typed_warnings(v) + file_warning(p, v, ldt) + (if variant_stats(p, v, ldt) is None {
        seq![WarningView::PhotometryMissing { variant_id: v.id }]
    } else {
        Seq::empty()
    })
}

/// The warnings about the first `n` variants.
pub open spec fn warnings_to(p: ProductView, ldt: LdtFileView, n: int) -> Seq<WarningView>
    decreases n,
{
    if n <= 0 {
        Seq::empty()
    } else {
        warnings_to(p, ldt, n - 1) + variant_warnings(p, p.variants[n - 1], ldt)
    }
}

/// A product without a light distribution file gives no warning about
/// one.
pub proof fn no_file_no_failure(p: ProductView, ldt: LdtFileView, n: int)
    requires
        photometric_files(p.files).len() == 0,
        0 <= n <= p.variants.len(),
    ensures
        forall|k: int|
            0 <= k < warnings_to(p, ldt, n).len() ==> !((#[trigger] warnings_to(p, ldt, n)[k]) is PhotometryParseFailed),
    decreases n,
{
    if n > 0 {
        no_file_no_failure(p, ldt, n - 1);
        let v = p.variants[n - 1];
        let front = warnings_to(p, ldt, n - 1);
        let typed = typed_warnings(v);
        typed_warnings_are_foreign(v);
        let all = warnings_to(p, ldt, n);
        assert forall|k: int| 0 <= k < all.len() implies !((#[trigger] all[k]) is PhotometryParseFailed) by {
            if k < front.len() {
                assert(all[k] == front[k]);
            } else if k < front.len() + typed.len() {
                assert(all[k] == typed[k - front.len()]);
            }
        }
    }
}

proof fn typed_warnings_are_foreign(v: ProductVariantView)
    ensures
        forall|k: int|
            0 <= k < typed_warnings(v).len() ==> (#[trigger] typed_warnings(v)[k]) is NonCanonicalEnumValue,
{
    foreign_shape(v.id, "Application"@, Axis::Application, v.applications);
    foreign_shape(v.id, "Label"@, Axis::Label, v.labels);
    foreign_shape(v.id, "ProductForm"@, Axis::ProductForm, declared(v.product_form));
    foreign_shape(v.id, "IKRating"@, Axis::IkRating, declared(v.ik_rating));
    foreign_shape(v.id, "Adjustability"@, Axis::Adjustability, v.adjustabilities);
    foreign_shape(v.id, "IngressProtectionIPCode"@, Axis::IpCode, declared(v.ip_code));
    foreign_shape(v.id, "ElectricalSafetyClass"@, Axis::SafetyClass, declared(v.safety_class));
    foreign_shape(
        v.id,
        "LightDistribution"@,
        Axis::LightDistribution,
        declared(v.light_distribution),
    );
}

proof fn foreign_shape(id: Seq<char>, field: Seq<char>, axis: Axis, raws: Seq<Seq<char>>)
    ensures
        forall|k: int|
            0 <= k < foreign_values(id, field, axis, raws).len() ==> (#[trigger] foreign_values(
                id,
                field,
                axis,
                raws,
            )[k]) is NonCanonicalEnumValue,
    decreases raws.len(),
{
    if raws.len() > 0 {
        foreign_shape(id, field, axis, raws.drop_last());
    }
}

/// The lamp type that is first in the closed list.
fn first_in_list(axis: Axis, raws: &Vec<String>) -> (r: Option<u8>)
    ensures
        r == first_canonical(axis, texts(raws@), 0),
{
    let ghost all = texts(raws@);
    let mut i: usize = 0;
    while i < raws.len()
        invariant
            i <= raws@.len(),
            all == texts(raws@),
            first_canonical(axis, all, 0) == first_canonical(axis, all, i as int),
        decreases raws@.len() - i,
    {
        proof {
            assert(all[i as int] == raws@[i as int]@);
        }
        let id: Option<u8> = id_of(axis, raws[i].as_str());
        if id.is_some() {
            return id;
        }
        i += 1;
    }
    None
}

/// The lamp type of a product.
pub fn pluck_cie97_lamp_type(p: &Product) -> (r: Option<u8>)
    ensures
        r == lamp_type_of(p@),
{
    or(
        first_in_list(Axis::LampType, &p.changeable_lamp_types),
        first_in_list(Axis::LampType, &p.fixed_lamp_types),
    )
}

/// The control gear interfaces of a product.
pub fn pluck_control_gear_interfaces(p: &Product) -> (r: IdList)
    ensures
        r@ == interfaces_of(
            p@.control_gear_interfaces,
            p@.control_gear_interfaces.len() as int,
        ),
{
    let ghost all = texts(p.control_gear_interfaces@);
    let mut r: IdList = IdList::new();
    let mut i: usize = 0;
    while i < p.control_gear_interfaces.len()
        invariant
            i <= p.control_gear_interfaces@.len(),
            all == texts(p.control_gear_interfaces@),
            r@ == interfaces_of(all, i as int),
        decreases p.control_gear_interfaces@.len() - i,
    {
        proof {
            assert(all[i as int] == p.control_gear_interfaces@[i as int]@);
        }
        match id_of(Axis::ControlGearInterface, p.control_gear_interfaces[i].as_str()) {
            Some(id) => {
                if !r.contains(id) {
                    r.push(id);
                }
            },
            None => {},
        }
        i += 1;
    }
    r
}

// ---------------------------------------------------------------------
// Documents
// ---------------------------------------------------------------------

/// The first of the first `n` variants' values that is there.
pub open spec fn first_some(
    vs: Seq<ProductVariantView>,
    value: spec_fn(ProductVariantView) -> Option<u8>,
    n: int,
) -> Option<u8>
    decreases n,
{
    if n <= 0 {
        None
    } else {
        either(first_some(vs, value, n - 1), value(vs[n - 1]))
    }
}

/// The IP code of a variant, declared or told by its name.
pub open spec fn ip_code_of() -> spec_fn(ProductVariantView) -> Option<u8> {
    |v: ProductVariantView| either(typed_of(v).ip_code, mined_of(v).ip_code)
}

/// The safety class of a variant.
pub open spec fn safety_class_of() -> spec_fn(ProductVariantView) -> Option<u8> {
    |v: ProductVariantView| typed_of(v).safety_class
}

/// The IK rating of a variant, declared or told by its name.
pub open spec fn ik_rating_of() -> spec_fn(ProductVariantView) -> Option<u8> {
    |v: ProductVariantView| either(typed_of(v).ik_rating, mined_of(v).ik_rating)
}

/// The product form of a variant, declared or told by its name.
pub open spec fn product_form_of() -> spec_fn(ProductVariantView) -> Option<u8> {
    |v: ProductVariantView| either(typed_of(v).product_form, mined_of(v).product_form)
}

/// Whether one of the first `n` variants has a keyword.
pub open spec fn has_keyword(vs: Seq<ProductVariantView>, n: int, x: Seq<char>) -> bool {
    exists|i: int| 0 <= i < n && variant_has_keyword(#[trigger] vs[i], x)
}

/// Whether a variant has a keyword: one that its name tells, or a value
/// that it declares.
pub open spec fn variant_has_keyword(v: ProductVariantView, x: Seq<char>) -> bool {
    mined_of(v).keywords.contains(x) || typed_of(v).raw_keywords.contains(x)
}

/// Whether one of the first `n` variants has an application, declared or
/// told by its name.
pub open spec fn has_application(vs: Seq<ProductVariantView>, n: int, x: u8) -> bool {
    exists|i: int|
        0 <= i < n && (typed_of(#[trigger] vs[i]).applications.contains(x) || mined_of(
            vs[i],
        ).applications.contains(x))
}

/// Whether one of the first `n` variants declares a label.
pub open spec fn has_label(vs: Seq<ProductVariantView>, n: int, x: u8) -> bool {
    exists|i: int| 0 <= i < n && typed_of(#[trigger] vs[i]).labels.contains(x)
}

/// Whether one of the first `n` variants declares an adjustability.
pub open spec fn has_adjustability(vs: Seq<ProductVariantView>, n: int, x: u8) -> bool {
    exists|i: int| 0 <= i < n && typed_of(#[trigger] vs[i]).adjustability.contains(x)
}

/// The trade number of the first variant, from the `i`th on, that
/// declares one, unless it is empty.
pub open spec fn gtin_from(vs: Seq<ProductVariantView>, i: int) -> Option<Seq<char>>
    decreases vs.len() - i,
{
    if i < 0 || i >= vs.len() {
        None
    } else {
        match vs[i].gtin {
            Some(s) => if s.len() > 0 {
                Some(s)
            } else {
                None
            },
            None => gtin_from(vs, i + 1),
        }
    }
}

/// What comes with a product: where it was found, its content and facts
/// about the file.
pub struct ExtractInput<'a> {
    /// Where the product was found.
    pub source: Option<SourceRef>,
    /// Content to take an identity from where there is no unique id.
    pub raw_bytes: Option<&'a [u8]>,
    /// Facts about the file.
    pub file_meta: Option<FileMeta>,
}

impl<'a> Default for ExtractInput<'a> {
    /// Nothing comes with the product.
    fn default() -> (r: ExtractInput<'a>)
        ensures
            r.source is None,
            r.raw_bytes is None,
            r.file_meta is None,
    {
        ExtractInput { source: None, raw_bytes: None, file_meta: None }
    }
}

/// A document and the warnings about it.
pub struct ExtractOutput {
    /// The document.
    pub doc: LuminaireDoc,
    /// What the product lacked.
    pub warnings: Vec<ExtractWarning>,
}

/// The place that is recorded for an input.
pub open spec fn source_of(input: ExtractInput) -> SourceView {
    match input.source {
        Some(s) => s@,
        None => SourceView::ContentOnly,
    }
}

/// Whether `s` holds the keywords of the first `n` variants, each once, in
/// order.
pub open spec fn is_keywords(vs: Seq<ProductVariantView>, n: int, s: Seq<Seq<char>>) -> bool {
    rising_texts(s) && forall|x: Seq<char>| #[trigger] s.contains(x) <==> has_keyword(vs, n, x)
}

/// Whether `s` holds the applications of the first `n` variants, each once, in
/// order.
pub open spec fn is_applications(vs: Seq<ProductVariantView>, n: int, s: Seq<u8>) -> bool {
    rising(s) && forall|x: u8| #[trigger] s.contains(x) <==> has_application(vs, n, x)
}

/// Whether `s` holds the labels of the first `n` variants, each once, in
/// order.
pub open spec fn is_labels(vs: Seq<ProductVariantView>, n: int, s: Seq<u8>) -> bool {
    rising(s) && forall|x: u8| #[trigger] s.contains(x) <==> has_label(vs, n, x)
}

/// Whether `s` holds the adjustabilities of the first `n` variants, each once, in
/// order.
pub open spec fn is_adjustability(vs: Seq<ProductVariantView>, n: int, s: Seq<u8>) -> bool {
    rising(s) && forall|x: u8| #[trigger] s.contains(x) <==> has_adjustability(vs, n, x)
}

/// Whether the closed-list values of a document are those of the
/// variants of a product.
pub open spec fn facets_extracted(p: ProductView, doc: DocView) -> bool {
    let vs = p.variants;
    let n = vs.len() as int;
    &&& is_keywords(vs, n, doc.keywords)
    &&& is_applications(vs, n, doc.applications)
    &&& is_labels(vs, n, doc.labels)
    &&& is_adjustability(vs, n, doc.adjustability)
    &&& doc.ip_code == first_some(vs, ip_code_of(), n)
    &&& doc.safety_class == first_some(vs, safety_class_of(), n)
    &&& doc.ik_rating == first_some(vs, ik_rating_of(), n)
    &&& doc.product_form == first_some(vs, product_form_of(), n)
}

/// Whether `doc` is the document of a product.
pub open spec fn doc_extracted(
    p: ProductView,
    input: ExtractInput,
    ldt: LdtFileView,
    doc: DocView,
) -> bool {
    &&& doc.id == derived_id(p.header.unique_gldf_id, opt_bytes(input.raw_bytes))
    &&& doc.source == source_of(input)
    &&& doc.source_paths == seq![source_of(input)]
    &&& doc.manufacturer == trim(p.header.manufacturer)
    &&& doc.product == (match preferred_value(p.name) {
        Some(s) => s,
        None => Seq::empty(),
    })
    &&& doc.gtin == gtin_from(p.variants, 0)
    &&& doc.product_code == preferred_value(p.product_number)
    &&& is_gathered(p, doc.descriptions)
    &&& facets_extracted(p, doc)
    &&& doc.variants == Seq::new(p.variants.len(), |i: int| variant_doc(p, ldt, i))
    &&& doc.file_meta == (match input.file_meta {
        Some(m) => m@,
        None => FileMetaView {
            size_bytes: 0,
            mtime_epoch_s: None,
            format_version: Some(version_text(p.header.format_version)),
        },
    })
}

/// The warnings about a product: the manufacturer, the identity, then
/// variant after variant.
pub open spec fn all_warnings(p: ProductView, input: ExtractInput, ldt: LdtFileView) -> Seq<
    WarningView,
> {
    (if trim(p.header.manufacturer).len() == 0 {
        seq![WarningView::ManufacturerEmpty]
    } else {
        Seq::empty()
    }) + (if derived_id(p.header.unique_gldf_id, opt_bytes(input.raw_bytes)) == no_identity() {
        seq![WarningView::DocIdUnavailable]
    } else {
        Seq::empty()
    }) + warnings_to(p, ldt, p.variants.len() as int)
}

/// A document has a variant for each variant of the product, in order.
pub proof fn variants_correspond(p: ProductView, input: ExtractInput, ldt: LdtFileView, doc: DocView)
    requires
        doc_extracted(p, input, ldt, doc),
    ensures
        doc.variants.len() == p.variants.len(),
        forall|i: int|
            0 <= i < doc.variants.len() ==> (#[trigger] doc.variants[i]).name == display_name(
                p.variants[i],
            ) && doc.variants[i].source_index == 0,
{
}

/// A photometric figure of a document is within its limit.
pub proof fn extracted_figures_are_plausible(
    p: ProductView,
    input: ExtractInput,
    ldt: LdtFileView,
    doc: DocView,
    i: int,
)
    requires
        doc_extracted(p, input, ldt, doc),
        0 <= i < doc.variants.len(),
    ensures
        doc.variants[i].photometry matches Some(s) ==> s == plausible(s),
        doc.variants[i].recessed_depth_mm matches Some(d) ==> d <= DEPTH_MAX_MM,
{
    let v = p.variants[i];
    let ld = typed_of(v).light_distribution;
    if let Some(s) = merged_stats(file_stats(p, ldt), mined_stats(mined_of(v), ld), ld) {
        crate::photometry::plausible_is_idempotent(s);
    }
}

/// A figure of the light distribution file is that of every variant of
/// the document, where it is plausible, whatever the names say.
#[verifier::spinoff_prover]
pub proof fn documents_believe_the_file(
    p: ProductView,
    input: ExtractInput,
    l: LdtView,
    doc: DocView,
    i: int,
)
    requires
        doc_extracted(p, input, LdtFileView::Read(l), doc),
        photometric_files(p.files).len() > 0,
        0 <= i < doc.variants.len(),
    ensures
        doc.variants[i].photometry matches Some(s) && {
            let f = ldt_stats(l);
            &&& f.flux_lm is Some && 0 <= f.flux_lm->0 <= FLUX_MAX_LM ==> s.flux_lm == f.flux_lm
            &&& f.power_w is Some && 0 <= f.power_w->0 <= POWER_MAX_W ==> s.power_w == f.power_w
            &&& f.beam_deg is Some && 0 <= f.beam_deg->0 <= BEAM_MAX_DEG ==> s.beam_deg == f.beam_deg
            &&& f.field_deg is Some && 0 <= f.field_deg->0 <= BEAM_MAX_DEG ==> s.field_deg
                == f.field_deg
            &&& f.cct_k is Some ==> s.cct_k == f.cct_k
            &&& f.cri_ra is Some ==> s.cri_ra == f.cri_ra
            &&& f.ulor is Some ==> s.ulor == f.ulor
            &&& f.dlor is Some ==> s.dlor == f.dlor
            &&& s.symmetry == f.symmetry
            &&& typed_of(p.variants[i]).light_distribution is None ==> s.light_distribution
                == f.light_distribution
            &&& typed_of(p.variants[i]).light_distribution is Some ==> s.light_distribution
                == typed_of(p.variants[i]).light_distribution
        },
{
    let ld = typed_of(p.variants[i]).light_distribution;
    let mined = mined_stats(mined_of(p.variants[i]), ld);
    file_figures_stand(ldt_stats(l), mined, ld);
    mined_figures_keep_their_places(mined_of(p.variants[i]), ld);
    if mined is Some {
        name_fills_the_gaps(ldt_stats(l), mined->0, ld);
    }
    crate::photometry::plausible_figures_stay(
        merged_stats(Some(ldt_stats(l)), mined, ld)->0,
    );
}

/// Without a light distribution file a variant has what its name tells,
/// where it is plausible.
pub proof fn names_tell_where_no_file_does(
    p: ProductView,
    input: ExtractInput,
    ldt: LdtFileView,
    doc: DocView,
    i: int,
)
    requires
        doc_extracted(p, input, ldt, doc),
        photometric_files(p.files).len() == 0 || !(ldt is Read),
        0 <= i < doc.variants.len(),
    ensures
        ({
            let m = mined_of(p.variants[i]);
            let photometry = doc.variants[i].photometry;
            &&& m.cct_k is Some ==> photometry is Some && photometry->0.cct_k == m.cct_k
            &&& m.cri_ra_min is Some ==> photometry is Some && photometry->0.cri_ra == m.cri_ra_min
            &&& photometry is None <==> m.flux_lm is None && m.power_w is None && m.cct_k is None
                && m.cri_ra_min is None && m.beam_deg is None && typed_of(
                p.variants[i],
            ).light_distribution is None
            &&& photometry is Some ==> photometry->0.light_distribution == typed_of(
                p.variants[i],
            ).light_distribution
        }),
{
    let ld = typed_of(p.variants[i]).light_distribution;
    mined_figures_keep_their_places(mined_of(p.variants[i]), ld);
    declared_distribution_stands_alone(ld);
    let mined = mined_stats(mined_of(p.variants[i]), ld);
    if mined is Some {
        lone_figures_are_kept(mined->0, ld);
    }
}

/// A variant of a document has what its product declares of it.
pub proof fn variants_have_what_is_declared(
    p: ProductView,
    input: ExtractInput,
    ldt: LdtFileView,
    doc: DocView,
    i: int,
)
    requires
        doc_extracted(p, input, ldt, doc),
        0 <= i < doc.variants.len(),
    ensures
        ({
            let v = doc.variants[i];
            let raw = p.variants[i];
            &&& v.has_3d == raw.model_geometry
            &&& v.has_emergency_lighting == raw.has_emergency
            &&& !raw.has_emergency || raw.emergency_lighting_type is None
                ==> v.emergency_lighting_type is None
            &&& raw.has_emergency && raw.emergency_lighting_type is Some
                ==> v.emergency_lighting_type == value_id(
                Axis::EmergencyLightingType,
                raw.emergency_lighting_type->0,
            )
            &&& v.mounting_place == mounting_of(raw.mountings).place
            &&& v.mounting_type == mounting_of(raw.mountings).kind
            &&& mounting_of(raw.mountings).recessed_depth_mm matches Some(d) ==> (d <= 1000
                ==> v.recessed_depth_mm == Some(d)) && (d > 1000 ==> v.recessed_depth_mm is None)
            &&& mounting_of(raw.mountings).recessed_depth_mm is None ==> v.recessed_depth_mm is None
            &&& preferred_value(raw.name) is Some ==> v.name == preferred_value(raw.name)->0
            &&& preferred_value(raw.name) is None ==> v.name == raw.id
            &&& i < 65536 ==> v.id == i
        }),
{
}

/// The lamp type is that of the first changeable light source whose type
/// is in the closed list, and else that of the first fixed one.
pub proof fn changeable_sources_go_first(p: ProductView, k: int)
    ensures
        0 <= k < p.changeable_lamp_types.len() && value_id(
            Axis::LampType,
            p.changeable_lamp_types[k],
        ) is Some && (forall|j: int|
            0 <= j < k ==> value_id(Axis::LampType, #[trigger] p.changeable_lamp_types[j]) is None)
            ==> lamp_type_of(p) == value_id(Axis::LampType, p.changeable_lamp_types[k]),
        0 <= k < p.fixed_lamp_types.len() && value_id(
            Axis::LampType,
            p.fixed_lamp_types[k],
        ) is Some && (forall|j: int|
            0 <= j < k ==> value_id(Axis::LampType, #[trigger] p.fixed_lamp_types[j]) is None) && (
        forall|j: int|
            0 <= j < p.changeable_lamp_types.len() ==> value_id(
                Axis::LampType,
                #[trigger] p.changeable_lamp_types[j],
            ) is None) ==> lamp_type_of(p) == value_id(Axis::LampType, p.fixed_lamp_types[k]),
        lamp_type_of(p) is Some ==> (exists|j: int|
            0 <= j < p.changeable_lamp_types.len() && value_id(
                Axis::LampType,
                #[trigger] p.changeable_lamp_types[j],
            ) == lamp_type_of(p)) || (exists|j: int|
            0 <= j < p.fixed_lamp_types.len() && value_id(
                Axis::LampType,
                #[trigger] p.fixed_lamp_types[j],
            ) == lamp_type_of(p)),
{
    first_canonical_is_first(Axis::LampType, p.changeable_lamp_types, 0);
    first_canonical_is_first(Axis::LampType, p.fixed_lamp_types, 0);
}

proof fn first_canonical_is_first(axis: Axis, raws: Seq<Seq<char>>, i: int)
    requires
        0 <= i <= raws.len(),
    ensures
        match first_canonical(axis, raws, i) {
            Some(x) => exists|k: int|
                i <= k < raws.len() && value_id(axis, #[trigger] raws[k]) == Some(x) && forall|j: int|
                    i <= j < k ==> value_id(axis, #[trigger] raws[j]) is None,
            None => forall|k: int| i <= k < raws.len() ==> value_id(axis, #[trigger] raws[k]) is None,
        },
    decreases raws.len() - i,
{
    if i < raws.len() {
        if value_id(axis, raws[i]) is Some {
            assert(value_id(axis, raws[i]) == first_canonical(axis, raws, i));
        } else {
            first_canonical_is_first(axis, raws, i + 1);
            if first_canonical(axis, raws, i) is Some {
                let x = first_canonical(axis, raws, i)->0;
                let k = choose|k: int|
                    i + 1 <= k < raws.len() && value_id(axis, #[trigger] raws[k]) == Some(x)
                        && forall|j: int|
                        i + 1 <= j < k ==> value_id(axis, #[trigger] raws[j]) is None;
                assert(value_id(axis, raws[k]) == Some(x));
            }
        }
    }
}

/// Every variant has the lamp type of the product, and its control gear
/// interfaces are those in the closed list.
pub proof fn variants_share_lamps_and_interfaces(
    p: ProductView,
    input: ExtractInput,
    ldt: LdtFileView,
    doc: DocView,
    i: int,
    id: u8,
)
    requires
        doc_extracted(p, input, ldt, doc),
        0 <= i < doc.variants.len(),
    ensures
        doc.variants[i].lamp_type == lamp_type_of(p),
        doc.variants[i].control_gear_interfaces.contains(id) <==> exists|j: int|
            0 <= j < p.control_gear_interfaces.len() && value_id(
                Axis::ControlGearInterface,
                #[trigger] p.control_gear_interfaces[j],
            ) == Some(id),
{
    interfaces_are_exact(
        p.control_gear_interfaces,
        p.control_gear_interfaces.len() as int,
        id,
    );
}

proof fn interfaces_are_exact(raws: Seq<Seq<char>>, n: int, id: u8)
    requires
        0 <= n <= raws.len(),
    ensures
        interfaces_of(raws, n).contains(id) <==> exists|j: int|
            0 <= j < n && value_id(Axis::ControlGearInterface, #[trigger] raws[j]) == Some(id),
    decreases n,
{
    if n > 0 {
        interfaces_are_exact(raws, n - 1, id);
        let front = interfaces_of(raws, n - 1);
        let all = interfaces_of(raws, n);
        if front.contains(id) {
            let k = choose|k: int| 0 <= k < front.len() && front[k] == id;
            assert(all[k] == id);
        }
        if value_id(Axis::ControlGearInterface, raws[n - 1]) == Some(id) && !front.contains(id) {
            assert(all[front.len() as int] == id);
        }
        if all.contains(id) && !front.contains(id) {
            let k = choose|k: int| 0 <= k < all.len() && all[k] == id;
            if k < front.len() {
                assert(front[k] == id);
            }
            assert(value_id(Axis::ControlGearInterface, raws[n - 1]) == Some(id));
        }
    }
}

/// The trade number of a document is that of the first variant that
/// declares one.
pub proof fn first_trade_number_stands(
    p: ProductView,
    input: ExtractInput,
    ldt: LdtFileView,
    doc: DocView,
    k: int,
)
    requires
        doc_extracted(p, input, ldt, doc),
        0 <= k < p.variants.len(),
        p.variants[k].gtin is Some,
        forall|j: int| 0 <= j < k ==> (#[trigger] p.variants[j]).gtin is None,
    ensures
        p.variants[k].gtin->0.len() > 0 ==> doc.gtin == p.variants[k].gtin,
        p.variants[k].gtin->0.len() == 0 ==> doc.gtin is None,
{
    gtin_found_at(p.variants, 0, k);
}

proof fn gtin_found_at(vs: Seq<ProductVariantView>, i: int, k: int)
    requires
        0 <= i <= k < vs.len(),
        vs[k].gtin is Some,
        forall|j: int| i <= j < k ==> (#[trigger] vs[j]).gtin is None,
    ensures
        gtin_from(vs, i) == gtin_from(vs, k),
    decreases k - i,
{
    if i < k {
        gtin_found_at(vs, i + 1, k);
    }
}

/// Name, number, manufacturer and source of a document are those of the
/// product and its input.
pub proof fn documents_are_named_after_products(
    p: ProductView,
    input: ExtractInput,
    ldt: LdtFileView,
    doc: DocView,
)
    requires
        doc_extracted(p, input, ldt, doc),
    ensures
        preferred_value(p.name) is Some ==> doc.product == preferred_value(p.name)->0,
        preferred_value(p.name) is None ==> doc.product.len() == 0,
        doc.product_code == preferred_value(p.product_number),
        doc.manufacturer == trim(p.header.manufacturer),
        input.source matches Some(s) ==> doc.source == s@ && doc.source_paths == seq![s@],
        input.source is None ==> doc.source == SourceView::ContentOnly && doc.source_paths == seq![
            SourceView::ContentOnly,
        ],
        input.file_meta matches Some(m) ==> doc.file_meta == m@,
        input.file_meta is None ==> doc.file_meta.size_bytes == 0
            && doc.file_meta.mtime_epoch_s is None && doc.file_meta.format_version is Some,
{
}

/// A blank manufacturer, a missing identity, a variant without figures
/// and a light distribution file that says nothing are each warned
/// about.
#[verifier::spinoff_prover]
pub proof fn lacks_are_warned_about(
    p: ProductView,
    input: ExtractInput,
    ldt: LdtFileView,
    doc: DocView,
    i: int,
)
    requires
        doc_extracted(p, input, ldt, doc),
        0 <= i < p.variants.len(),
    ensures
        doc.manufacturer.len() == 0 ==> all_warnings(p, input, ldt).contains(
            WarningView::ManufacturerEmpty,
        ),
        doc.id == no_identity() ==> all_warnings(p, input, ldt).contains(
            WarningView::DocIdUnavailable,
        ),
        doc.variants[i].photometry is None ==> all_warnings(p, input, ldt).contains(
            WarningView::PhotometryMissing { variant_id: p.variants[i].id },
        ),
        photometric_files(p.files).len() > 0 && !(ldt is Read) ==> all_warnings(
            p,
            input,
            ldt,
        ).contains(
            WarningView::PhotometryParseFailed {
                variant_id: p.variants[i].id,
                file_id: p.files[photometric_files(p.files)[0]].id,
            },
        ),
{
    let n = p.variants.len() as int;
    let tail = warnings_to(p, ldt, n);
    let a = if doc.manufacturer.len() == 0 {
        seq![WarningView::ManufacturerEmpty]
    } else {
        Seq::empty()
    };
    let b = if doc.id == no_identity() {
        seq![WarningView::DocIdUnavailable]
    } else {
        Seq::empty()
    };
    assert(all_warnings(p, input, ldt) == a + b + tail);
    if doc.manufacturer.len() == 0 {
        assert(a[0] == WarningView::ManufacturerEmpty);
        holds_either(a, b, WarningView::ManufacturerEmpty);
        holds_either(a + b, tail, WarningView::ManufacturerEmpty);
    }
    if doc.id == no_identity() {
        assert(b[0] == WarningView::DocIdUnavailable);
        holds_either(a, b, WarningView::DocIdUnavailable);
        holds_either(a + b, tail, WarningView::DocIdUnavailable);
    }
    let v = p.variants[i];
    let typed = typed_warnings(v);
    let file = file_warning(p, v, ldt);
    let missing = WarningView::PhotometryMissing { variant_id: v.id };
    let last = if variant_stats(p, v, ldt) is None {
        seq![missing]
    } else {
        Seq::empty()
    };
    assert(variant_warnings(p, v, ldt) == typed + file + last);
    if doc.variants[i].photometry is None {
        assert(last[0] == missing);
        holds_either(typed + file, last, missing);
        variant_warnings_are_kept(p, ldt, n, i, missing);
        holds_either(a + b, tail, missing);
    }
    if photometric_files(p.files).len() > 0 && !(ldt is Read) {
        let failed = WarningView::PhotometryParseFailed {
            variant_id: v.id,
            file_id: p.files[photometric_files(p.files)[0]].id,
        };
        assert(file[0] == failed);
        holds_either(typed, file, failed);
        holds_either(typed + file, last, failed);
        variant_warnings_are_kept(p, ldt, n, i, failed);
        holds_either(a + b, tail, failed);
    }
}

#[verifier::spinoff_prover]
proof fn variant_warnings_are_kept(
    p: ProductView,
    ldt: LdtFileView,
    n: int,
    i: int,
    w: WarningView,
)
    requires
        0 <= i < n <= p.variants.len(),
        variant_warnings(p, p.variants[i], ldt).contains(w),
    ensures
        warnings_to(p, ldt, n).contains(w),
    decreases n,
{
    if i < n - 1 {
        variant_warnings_are_kept(p, ldt, n - 1, i, w);
    }
    holds_either(warnings_to(p, ldt, n - 1), variant_warnings(p, p.variants[n - 1], ldt), w);
}

/// Every warning has its reason.
#[verifier::spinoff_prover]
pub proof fn warnings_have_their_reasons(
    p: ProductView,
    input: ExtractInput,
    ldt: LdtFileView,
    doc: DocView,
    k: int,
)
    requires
        doc_extracted(p, input, ldt, doc),
        0 <= k < all_warnings(p, input, ldt).len(),
    ensures
        match all_warnings(p, input, ldt)[k] {
            WarningView::ManufacturerEmpty => doc.manufacturer.len() == 0,
            WarningView::DocIdUnavailable => doc.id == no_identity(),
            WarningView::PhotometryMissing { variant_id } => exists|i: int|
                0 <= i < p.variants.len() && (#[trigger] p.variants[i]).id == variant_id
                    && doc.variants[i].photometry is None,
            WarningView::PhotometryParseFailed { variant_id, file_id } => photometric_files(
                p.files,
            ).len() > 0 && !(ldt is Read),
            WarningView::NonCanonicalEnumValue { variant_id, field, value } => true,
        },
{
    let n = p.variants.len() as int;
    let tail = warnings_to(p, ldt, n);
    let w = all_warnings(p, input, ldt)[k];
    let head = all_warnings(p, input, ldt).len() - tail.len();
    variant_warnings_have_reasons(p, ldt, n);
    if k >= head {
        assert(w == tail[k - head]);
        if let WarningView::PhotometryMissing { variant_id } = w {
            let i = choose|i: int|
                0 <= i < n && (#[trigger] p.variants[i]).id == variant_id && variant_stats(
                    p,
                    p.variants[i],
                    ldt,
                ) is None;
            assert(doc.variants[i].photometry is None);
        }
    }
}

#[verifier::spinoff_prover]
proof fn variant_warnings_have_reasons(p: ProductView, ldt: LdtFileView, n: int)
    requires
        0 <= n <= p.variants.len(),
    ensures
        forall|k: int|
            0 <= k < warnings_to(p, ldt, n).len() ==> match #[trigger] warnings_to(p, ldt, n)[k] {
                WarningView::PhotometryMissing { variant_id } => exists|i: int|
                    0 <= i < n && (#[trigger] p.variants[i]).id == variant_id && variant_stats(
                        p,
                        p.variants[i],
                        ldt,
                    ) is None,
                WarningView::PhotometryParseFailed { variant_id, file_id } => photometric_files(
                    p.files,
                ).len() > 0 && !(ldt is Read),
                WarningView::NonCanonicalEnumValue { variant_id, field, value } => true,
                _ => false,
            },
    decreases n,
{
    if n > 0 {
        variant_warnings_have_reasons(p, ldt, n - 1);
        let v = p.variants[n - 1];
        let front = warnings_to(p, ldt, n - 1);
        let all = warnings_to(p, ldt, n);
        let typed = typed_warnings(v);
        let file = file_warning(p, v, ldt);
        typed_warnings_are_foreign(v);
        assert forall|k: int| 0 <= k < all.len() implies match #[trigger] all[k] {
            WarningView::PhotometryMissing { variant_id } => exists|i: int|
                0 <= i < n && (#[trigger] p.variants[i]).id == variant_id && variant_stats(
                    p,
                    p.variants[i],
                    ldt,
                ) is None,
            WarningView::PhotometryParseFailed { variant_id, file_id } => photometric_files(
                p.files,
            ).len() > 0 && !(ldt is Read),
            WarningView::NonCanonicalEnumValue { variant_id, field, value } => true,
            _ => false,
        } by {
            if k < front.len() {
                assert(all[k] == front[k]);
            } else if k < front.len() + typed.len() {
                assert(all[k] == typed[k - front.len()]);
            } else if k < front.len() + typed.len() + file.len() {
                assert(all[k] == file[k - front.len() - typed.len()]);
            } else {
                assert(all[k] == WarningView::PhotometryMissing { variant_id: v.id });
                assert(p.variants[n - 1].id == v.id);
            }
        }
    }
}

/// The first of several values that is there: no value stands before it.
proof fn first_some_is_first(
    vs: Seq<ProductVariantView>,
    value: spec_fn(ProductVariantView) -> Option<u8>,
    n: int,
)
    requires
        0 <= n <= vs.len(),
    ensures
        match first_some(vs, value, n) {
            Some(x) => exists|i: int|
                0 <= i < n && value(#[trigger] vs[i]) == Some(x) && forall|j: int|
                    0 <= j < i ==> value(#[trigger] vs[j]) is None,
            None => forall|i: int| 0 <= i < n ==> value(#[trigger] vs[i]) is None,
        },
    decreases n,
{
    if n > 0 {
        first_some_is_first(vs, value, n - 1);
        if first_some(vs, value, n - 1) is None && value(vs[n - 1]) is Some {
            assert(value(vs[n - 1]) == first_some(vs, value, n));
        }
    }
}

proof fn value_before_which_none_stands(
    vs: Seq<ProductVariantView>,
    value: spec_fn(ProductVariantView) -> Option<u8>,
    i: int,
    n: int,
)
    requires
        0 <= i < n <= vs.len(),
        value(vs[i]) is Some,
        forall|j: int| 0 <= j < i ==> value(#[trigger] vs[j]) is None,
    ensures
        first_some(vs, value, n) == value(vs[i]),
    decreases n,
{
    if n > i + 1 {
        value_before_which_none_stands(vs, value, i, n - 1);
    } else {
        first_some_is_first(vs, value, i);
    }
}

/// A document has the IP code, safety class, IK rating and product form
/// of the first variant that declares it, where no earlier variant tells
/// one by its name either.
#[verifier::spinoff_prover]
pub proof fn first_declared_value_stands(
    p: ProductView,
    input: ExtractInput,
    ldt: LdtFileView,
    doc: DocView,
    i: int,
)
    requires
        doc_extracted(p, input, ldt, doc),
        0 <= i < p.variants.len(),
    ensures
        (forall|j: int|
            0 <= j < i ==> typed_of(#[trigger] p.variants[j]).ip_code is None && mined_of(
                p.variants[j],
            ).ip_code is None) ==> {
            &&& typed_of(p.variants[i]).ip_code is Some ==> doc.ip_code == typed_of(
                p.variants[i],
            ).ip_code
            &&& typed_of(p.variants[i]).ip_code is None && mined_of(p.variants[i]).ip_code is Some
                ==> doc.ip_code == mined_of(p.variants[i]).ip_code
        },
        (forall|j: int| 0 <= j < i ==> typed_of(#[trigger] p.variants[j]).safety_class is None)
            && typed_of(p.variants[i]).safety_class is Some ==> doc.safety_class == typed_of(
            p.variants[i],
        ).safety_class,
        (forall|j: int|
            0 <= j < i ==> typed_of(#[trigger] p.variants[j]).ik_rating is None && mined_of(
                p.variants[j],
            ).ik_rating is None) ==> {
            &&& typed_of(p.variants[i]).ik_rating is Some ==> doc.ik_rating == typed_of(
                p.variants[i],
            ).ik_rating
            &&& typed_of(p.variants[i]).ik_rating is None && mined_of(p.variants[i]).ik_rating is Some
                ==> doc.ik_rating == mined_of(p.variants[i]).ik_rating
        },
        (forall|j: int|
            0 <= j < i ==> typed_of(#[trigger] p.variants[j]).product_form is None && mined_of(
                p.variants[j],
            ).product_form is None) ==> {
            &&& typed_of(p.variants[i]).product_form is Some ==> doc.product_form == typed_of(
                p.variants[i],
            ).product_form
            &&& typed_of(p.variants[i]).product_form is None && mined_of(
                p.variants[i],
            ).product_form is Some ==> doc.product_form == mined_of(p.variants[i]).product_form
        },
{
    let vs = p.variants;
    let n = vs.len() as int;
    let v = vs[i];
    if (typed_of(v).ip_code is Some || mined_of(v).ip_code is Some) && forall|j: int|
        0 <= j < i ==> typed_of(#[trigger] vs[j]).ip_code is None && mined_of(vs[j]).ip_code is None {
        value_before_which_none_stands(vs, ip_code_of(), i, n);
    }
    if typed_of(v).safety_class is Some && forall|j: int|
        0 <= j < i ==> typed_of(#[trigger] vs[j]).safety_class is None {
        value_before_which_none_stands(vs, safety_class_of(), i, n);
    }
    if (typed_of(v).ik_rating is Some || mined_of(v).ik_rating is Some) && forall|j: int|
        0 <= j < i ==> typed_of(#[trigger] vs[j]).ik_rating is None && mined_of(
            vs[j],
        ).ik_rating is None {
        value_before_which_none_stands(vs, ik_rating_of(), i, n);
    }
    if (typed_of(v).product_form is Some || mined_of(v).product_form is Some) && forall|j: int|
        0 <= j < i ==> typed_of(#[trigger] vs[j]).product_form is None && mined_of(
            vs[j],
        ).product_form is None {
        value_before_which_none_stands(vs, product_form_of(), i, n);
    }
}

/// A value of a document is declared by one of the variants or told by
/// its name.
pub proof fn values_come_from_variants(
    p: ProductView,
    input: ExtractInput,
    ldt: LdtFileView,
    doc: DocView,
)
    requires
        doc_extracted(p, input, ldt, doc),
    ensures
        doc.ip_code is Some ==> exists|i: int|
            0 <= i < p.variants.len() && (doc.ip_code == typed_of(#[trigger] p.variants[i]).ip_code
                || doc.ip_code == mined_of(p.variants[i]).ip_code),
        doc.safety_class is Some ==> exists|i: int|
            0 <= i < p.variants.len() && doc.safety_class == typed_of(
                #[trigger] p.variants[i],
            ).safety_class,
        doc.ik_rating is Some ==> exists|i: int|
            0 <= i < p.variants.len() && (doc.ik_rating == typed_of(
                #[trigger] p.variants[i],
            ).ik_rating || doc.ik_rating == mined_of(p.variants[i]).ik_rating),
        doc.product_form is Some ==> exists|i: int|
            0 <= i < p.variants.len() && (doc.product_form == typed_of(
                #[trigger] p.variants[i],
            ).product_form || doc.product_form == mined_of(p.variants[i]).product_form),
{
    let n = p.variants.len() as int;
    first_some_is_first(p.variants, ip_code_of(), n);
    first_some_is_first(p.variants, safety_class_of(), n);
    first_some_is_first(p.variants, ik_rating_of(), n);
    first_some_is_first(p.variants, product_form_of(), n);
    if doc.ip_code is Some {
        let i = choose|i: int|
            0 <= i < n && ip_code_of()(#[trigger] p.variants[i]) == doc.ip_code;
        assert(ip_code_of()(p.variants[i]) == doc.ip_code);
    }
    if doc.ik_rating is Some {
        let i = choose|i: int|
            0 <= i < n && ik_rating_of()(#[trigger] p.variants[i]) == doc.ik_rating;
        assert(ik_rating_of()(p.variants[i]) == doc.ik_rating);
    }
    if doc.product_form is Some {
        let i = choose|i: int|
            0 <= i < n && product_form_of()(#[trigger] p.variants[i]) == doc.product_form;
        assert(product_form_of()(p.variants[i]) == doc.product_form);
    }
}

/// A document has a label, an adjustability or an application exactly if
/// a variant declares one of its values, or tells the application by its
/// name.
#[verifier::spinoff_prover]
pub proof fn lists_hold_what_variants_declare(
    p: ProductView,
    input: ExtractInput,
    ldt: LdtFileView,
    doc: DocView,
    id: u8,
)
    requires
        doc_extracted(p, input, ldt, doc),
    ensures
        doc.labels.contains(id) <==> exists|i: int, j: int|
            0 <= i < p.variants.len() && 0 <= j < p.variants[i].labels.len() && value_id(
                Axis::Label,
                #[trigger] p.variants[i].labels[j],
            ) == Some(id),
        doc.adjustability.contains(id) <==> exists|i: int, j: int|
            0 <= i < p.variants.len() && 0 <= j < p.variants[i].adjustabilities.len() && value_id(
                Axis::Adjustability,
                #[trigger] p.variants[i].adjustabilities[j],
            ) == Some(id),
        doc.applications.contains(id) <==> (exists|i: int, j: int|
            0 <= i < p.variants.len() && 0 <= j < p.variants[i].applications.len() && value_id(
                Axis::Application,
                #[trigger] p.variants[i].applications[j],
            ) == Some(id)) || (exists|i: int|
            0 <= i < p.variants.len() && mined_of(#[trigger] p.variants[i]).applications.contains(
                id,
            )),
{
    let vs = p.variants;
    let n = vs.len() as int;
    assert forall|i: int| 0 <= i < n implies {
        &&& typed_of(#[trigger] vs[i]).labels.contains(id) <==> exists|j: int|
            0 <= j < vs[i].labels.len() && value_id(Axis::Label, #[trigger] vs[i].labels[j]) == Some(
                id,
            )
        &&& typed_of(vs[i]).adjustability.contains(id) <==> exists|j: int|
            0 <= j < vs[i].adjustabilities.len() && value_id(
                Axis::Adjustability,
                #[trigger] vs[i].adjustabilities[j],
            ) == Some(id)
        &&& typed_of(vs[i]).applications.contains(id) <==> exists|j: int|
            0 <= j < vs[i].applications.len() && value_id(
                Axis::Application,
                #[trigger] vs[i].applications[j],
            ) == Some(id)
    } by {
        listed_ids_are_declared(Axis::Label, vs[i].labels, id);
        listed_ids_are_declared(Axis::Adjustability, vs[i].adjustabilities, id);
        listed_ids_are_declared(Axis::Application, vs[i].applications, id);
    }
    assert(doc.labels.contains(id) <==> has_label(vs, n, id));
    assert(doc.adjustability.contains(id) <==> has_adjustability(vs, n, id));
    assert(doc.applications.contains(id) <==> has_application(vs, n, id));
    if exists|i: int, j: int|
        0 <= i < n && 0 <= j < vs[i].labels.len() && value_id(
            Axis::Label,
            #[trigger] vs[i].labels[j],
        ) == Some(id) {
        let (i, j) = choose|i: int, j: int|
            0 <= i < n && 0 <= j < vs[i].labels.len() && value_id(
                Axis::Label,
                #[trigger] vs[i].labels[j],
            ) == Some(id);
        assert(typed_of(vs[i]).labels.contains(id));
    }
    if exists|i: int, j: int|
        0 <= i < n && 0 <= j < vs[i].adjustabilities.len() && value_id(
            Axis::Adjustability,
            #[trigger] vs[i].adjustabilities[j],
        ) == Some(id) {
        let (i, j) = choose|i: int, j: int|
            0 <= i < n && 0 <= j < vs[i].adjustabilities.len() && value_id(
                Axis::Adjustability,
                #[trigger] vs[i].adjustabilities[j],
            ) == Some(id);
        assert(typed_of(vs[i]).adjustability.contains(id));
    }
    if exists|i: int, j: int|
        0 <= i < n && 0 <= j < vs[i].applications.len() && value_id(
            Axis::Application,
            #[trigger] vs[i].applications[j],
        ) == Some(id) {
        let (i, j) = choose|i: int, j: int|
            0 <= i < n && 0 <= j < vs[i].applications.len() && value_id(
                Axis::Application,
                #[trigger] vs[i].applications[j],
            ) == Some(id);
        assert(typed_of(vs[i]).applications.contains(id));
    }
    if exists|i: int| 0 <= i < n && mined_of(#[trigger] vs[i]).applications.contains(id) {
        let i = choose|i: int| 0 <= i < n && mined_of(#[trigger] vs[i]).applications.contains(id);
        assert(typed_of(vs[i]).applications.len() >= 0);
    }
    if has_label(vs, n, id) {
        let i = choose|i: int| 0 <= i < n && typed_of(#[trigger] vs[i]).labels.contains(id);
        let j = choose|j: int|
            0 <= j < vs[i].labels.len() && value_id(Axis::Label, #[trigger] vs[i].labels[j]) == Some(
                id,
            );
        assert(value_id(Axis::Label, vs[i].labels[j]) == Some(id));
    }
    if has_adjustability(vs, n, id) {
        let i = choose|i: int| 0 <= i < n && typed_of(#[trigger] vs[i]).adjustability.contains(id);
        let j = choose|j: int|
            0 <= j < vs[i].adjustabilities.len() && value_id(
                Axis::Adjustability,
                #[trigger] vs[i].adjustabilities[j],
            ) == Some(id);
        assert(value_id(Axis::Adjustability, vs[i].adjustabilities[j]) == Some(id));
    }
    if has_application(vs, n, id) {
        let i = choose|i: int|
            0 <= i < n && (typed_of(#[trigger] vs[i]).applications.contains(id) || mined_of(
                vs[i],
            ).applications.contains(id));
        if typed_of(vs[i]).applications.contains(id) {
            let j = choose|j: int|
                0 <= j < vs[i].applications.len() && value_id(
                    Axis::Application,
                    #[trigger] vs[i].applications[j],
                ) == Some(id);
            assert(value_id(Axis::Application, vs[i].applications[j]) == Some(id));
        } else {
            assert(mined_of(vs[i]).applications.contains(id));
        }
    }
}

/// What a variant declares, and what its name tells, can be searched for
/// in the document, and nothing else can.
pub proof fn keywords_come_from_variants(
    p: ProductView,
    input: ExtractInput,
    ldt: LdtFileView,
    doc: DocView,
    s: Seq<char>,
)
    requires
        doc_extracted(p, input, ldt, doc),
    ensures
        doc.keywords.contains(s) <==> exists|i: int|
            0 <= i < p.variants.len() && (declares(#[trigger] p.variants[i], s) || mined_of(
                p.variants[i],
            ).keywords.contains(s)),
{
    let vs = p.variants;
    assert(doc.keywords.contains(s) <==> has_keyword(vs, vs.len() as int, s));
    assert forall|i: int| 0 <= i < vs.len() implies (variant_has_keyword(#[trigger] vs[i], s) <==> (
    declares(vs[i], s) || mined_of(vs[i]).keywords.contains(s))) by {
        declared_values_are_keywords(vs[i], s);
    }
}

/// The trade number of a product.
fn product_gtin(p: &Product) -> (r: Option<String>)
    ensures
        opt_text(r) == gtin_from(p@.variants, 0),
{
    let ghost vs = p@.variants;
    let mut i: usize = 0;
    while i < p.variants.len()
        invariant
            i <= p.variants@.len(),
            vs == product_variant_views(p.variants@),
            gtin_from(vs, 0) == gtin_from(vs, i as int),
        decreases p.variants@.len() - i,
    {
        proof {
            assert(vs[i as int] == p.variants@[i as int]@);
        }
        match &p.variants[i].gtin {
            Some(s) => {
                if s.as_str().is_empty() {
                    return None;
                }
                return Some(s.clone());
            },
            None => {},
        }
        i += 1;
    }
    None
}

/// The closed-list values gathered from some variants.
struct Gathered {
    keywords: Vec<String>,
    applications: IdList,
    labels: IdList,
    adjustability: IdList,
    ip_code: Option<u8>,
    safety_class: Option<u8>,
    ik_rating: Option<u8>,
    product_form: Option<u8>,
}

/// Whether `g` holds the values of the first `n` variants.
#[verifier::opaque]
spec fn gathers(vs: Seq<ProductVariantView>, n: int, g: Gathered) -> bool {
    &&& is_keywords(vs, n, texts(g.keywords@))
    &&& is_applications(vs, n, g.applications@)
    &&& is_labels(vs, n, g.labels@)
    &&& is_adjustability(vs, n, g.adjustability@)
    &&& g.ip_code == first_some(vs, ip_code_of(), n)
    &&& g.safety_class == first_some(vs, safety_class_of(), n)
    &&& g.ik_rating == first_some(vs, ik_rating_of(), n)
    &&& g.product_form == first_some(vs, product_form_of(), n)
}

/// Adds the keywords of the next variant.
fn gather_keywords(
    list: &mut Vec<String>,
    typed: &TypedFacets,
    mined: &MinedFromName,
    vs: Ghost<Seq<ProductVariantView>>,
    n: Ghost<int>,
)
    requires
        0 <= n@ < vs@.len(),
        is_keywords(vs@, n@, texts(old(list)@)),
        typed@ == typed_of(vs@[n@]),
        mined@ == mined_of(vs@[n@]),
    ensures
        is_keywords(vs@, n@ + 1, texts(final(list)@)),
{
    let ghost before = texts(list@);
    insert_texts(list, &mined.keywords);
    insert_texts(list, &typed.raw_keywords);
    proof {
        let after = texts(list@);
        assert forall|x: Seq<char>| #[trigger] after.contains(x) <==> has_keyword(vs@, n@ + 1, x) by {
            assert(before.contains(x) <==> has_keyword(vs@, n@, x));
            if variant_has_keyword(vs@[n@], x) {
                assert(has_keyword(vs@, n@ + 1, x));
            }
        }
    }
}

/// Adds the applications of the next variant.
fn gather_applications(
    list: &mut IdList,
    typed: &TypedFacets,
    mined: &MinedFromName,
    vs: Ghost<Seq<ProductVariantView>>,
    n: Ghost<int>,
)
    requires
        0 <= n@ < vs@.len(),
        is_applications(vs@, n@, old(list)@),
        typed@ == typed_of(vs@[n@]),
        mined@ == mined_of(vs@[n@]),
    ensures
        is_applications(vs@, n@ + 1, final(list)@),
{
    let ghost before = list@;
    insert_ids(list, &typed.applications);
    insert_ids(list, &mined.applications);
    proof {
        let after = list@;
        assert forall|x: u8| #[trigger] after.contains(x) <==> has_application(vs@, n@ + 1, x) by {
            assert(before.contains(x) <==> has_application(vs@, n@, x));
            if typed_of(vs@[n@]).applications.contains(x) || mined_of(vs@[n@]).applications.contains(x) {
                assert(has_application(vs@, n@ + 1, x));
            }
        }
    }
}

/// Adds the labels of the next variant.
fn gather_labels(
    list: &mut IdList,
    typed: &TypedFacets,
    vs: Ghost<Seq<ProductVariantView>>,
    n: Ghost<int>,
)
    requires
        0 <= n@ < vs@.len(),
        is_labels(vs@, n@, old(list)@),
        typed@ == typed_of(vs@[n@]),
    ensures
        is_labels(vs@, n@ + 1, final(list)@),
{
    let ghost before = list@;
    insert_ids(list, &typed.labels);
    proof {
        let after = list@;
        assert forall|x: u8| #[trigger] after.contains(x) <==> has_label(vs@, n@ + 1, x) by {
            assert(before.contains(x) <==> has_label(vs@, n@, x));
            if typed_of(vs@[n@]).labels.contains(x) {
                assert(has_label(vs@, n@ + 1, x));
            }
        }
    }
}

/// Adds the adjustabilities of the next variant.
fn gather_adjustability(
    list: &mut IdList,
    typed: &TypedFacets,
    vs: Ghost<Seq<ProductVariantView>>,
    n: Ghost<int>,
)
    requires
        0 <= n@ < vs@.len(),
        is_adjustability(vs@, n@, old(list)@),
        typed@ == typed_of(vs@[n@]),
    ensures
        is_adjustability(vs@, n@ + 1, final(list)@),
{
    let ghost before = list@;
    insert_ids(list, &typed.adjustability);
    proof {
        let after = list@;
        assert forall|x: u8| #[trigger] after.contains(x) <==> has_adjustability(vs@, n@ + 1, x) by {
            assert(before.contains(x) <==> has_adjustability(vs@, n@, x));
            if typed_of(vs@[n@]).adjustability.contains(x) {
                assert(has_adjustability(vs@, n@ + 1, x));
            }
        }
    }
}

/// Adds the values of the next variant.
#[verifier::spinoff_prover]
fn gather_variant(
    g: &mut Gathered,
    typed: &TypedFacets,
    mined: &MinedFromName,
    vs: Ghost<Seq<ProductVariantView>>,
    n: Ghost<int>,
)
    requires
        0 <= n@ < vs@.len(),
        gathers(vs@, n@, *old(g)),
        typed@ == typed_of(vs@[n@]),
        mined@ == mined_of(vs@[n@]),
    ensures
        gathers(vs@, n@ + 1, *final(g)),
{
    proof {
        reveal(gathers);
    }
    gather_keywords(&mut g.keywords, typed, mined, vs, n);
    gather_applications(&mut g.applications, typed, mined, vs, n);
    gather_labels(&mut g.labels, typed, vs, n);
    gather_adjustability(&mut g.adjustability, typed, vs, n);
    g.ip_code = or(or(g.ip_code, typed.ip_code), mined.ip_code);
    g.safety_class = or(g.safety_class, typed.safety_class);
    g.ik_rating = or(or(g.ik_rating, typed.ik_rating), mined.ik_rating);
    g.product_form = or(or(g.product_form, typed.product_form), mined.product_form);
}

/// The photometric figures of a variant.
fn stats_of_variant(
    p: &Product,
    v: &ProductVariant,
    ldt: &LdtFile,
    typed: &TypedFacets,
    mined: &MinedFromName,
    warnings: &mut Vec<ExtractWarning>,
) -> (r: Option<PhotometryStats>)
    requires
        typed@ == typed_of(v@),
        mined@ == mined_of(v@),
    ensures
        r == variant_stats(p@, v@, ldt@),
        warning_views(final(warnings)@) == warning_views(old(warnings)@) + file_warning(
            p@,
            v@,
            ldt@,
        ) + (if r is None {
            seq![WarningView::PhotometryMissing { variant_id: v@.id }]
        } else {
            Seq::empty()
        }),
{
    let from_ldt: Option<PhotometryStats> = resolve_ldt_for_variant(p, v, ldt, warnings);
    proof {
        mined_figures_are_small(crate::mining::matches_in(display_name(v@)));
    }
    let from_name: Option<PhotometryStats> = build_photometry(mined, typed.light_distribution);
    let ghost ws = warning_views(warnings@);
    match merge_photometry(from_ldt, from_name, typed.light_distribution) {
        Some(s) => {
            let mut s: PhotometryStats = s;
            sanitize_photometry(&mut s);
            proof {
                assert(ws + Seq::<WarningView>::empty() =~= ws);
            }
            Some(s)
        },
        None => {
            warn(warnings, ExtractWarning::PhotometryMissing { variant_id: v.id.clone() });
            None
        },
    }
}

/// One variant of the document.
fn build_variant(
    p: &Product,
    i: usize,
    name: String,
    photometry: Option<PhotometryStats>,
    lamp_type: Option<u8>,
    interfaces: &IdList,
    ldt: Ghost<LdtFileView>,
) -> (r: VariantDoc)
    requires
        i < p.variants@.len(),
        name@ == display_name(p@.variants[i as int]),
        photometry == variant_stats(p@, p@.variants[i as int], ldt@),
        lamp_type == lamp_type_of(p@),
        interfaces@ == interfaces_of(
            p@.control_gear_interfaces,
            p@.control_gear_interfaces.len() as int,
        ),
    ensures
        r@ == variant_doc(p@, ldt@, i as int),
{
    let v: &ProductVariant = &p.variants[i];
    proof {
        assert(p@.variants[i as int] == v@);
    }
    let mounting: MountingFields = variant_mounting(&v.mountings);
    let emergency_lighting_type: Option<u8> = match &v.emergency_lighting_type {
        Some(s) => {
            if v.has_emergency {
                id_of(Axis::EmergencyLightingType, s.as_str())
            } else {
                None
            }
        },
        None => None,
    };
    VariantDoc {
        id: (i % 65536) as u16,
        name,
        photometry,
        mounting_place: mounting.place,
        mounting_type: mounting.kind,
        recessed_depth_mm: sanitize_recessed_depth(mounting.recessed_depth_mm),
        has_3d: v.model_geometry,
        lamp_type,
        control_gear_interfaces: interfaces.copy(),
        has_emergency_lighting: v.has_emergency,
        emergency_lighting_type,
        emitter_count: 0,
        source_index: 0,
    }
}

/// Takes in the `i`th variant of a product.
fn take_variant(
    p: &Product,
    i: usize,
    ldt: &LdtFile,
    lamp_type: Option<u8>,
    interfaces: &IdList,
    g: &mut Gathered,
    warnings: &mut Vec<ExtractWarning>,
) -> (r: VariantDoc)
    requires
        i < p.variants@.len(),
        gathers(p@.variants, i as int, *old(g)),
        lamp_type == lamp_type_of(p@),
        interfaces@ == interfaces_of(
            p@.control_gear_interfaces,
            p@.control_gear_interfaces.len() as int,
        ),
    ensures
        r@ == variant_doc(p@, ldt@, i as int),
        gathers(p@.variants, i + 1, *final(g)),
        warning_views(final(warnings)@) == warning_views(old(warnings)@) + variant_warnings(
            p@,
            p@.variants[i as int],
            ldt@,
        ),
{
    let w: &ProductVariant = &p.variants[i];
    let ghost view = w@;
    proof {
        assert(p@.variants[i as int] == w@);
    }
    let name: String = match first_locale_value(&w.name) {
        Some(s) => s,
        None => w.id.clone(),
    };
    let mined: MinedFromName = mine_variant_name(name.as_str());
    let ghost ws = warning_views(warnings@);
    let typed: TypedFacets = TypedFacets::from_variant(w, warnings);
    gather_variant(g, &typed, &mined, Ghost(p@.variants), Ghost(i as int));
    let photometry: Option<PhotometryStats> = stats_of_variant(p, w, ldt, &typed, &mined, warnings);
    proof {
        assert(warning_views(warnings@) =~= ws + variant_warnings(p@, view, ldt@));
    }
    build_variant(p, i, name, photometry, lamp_type, interfaces, Ghost(ldt@))
}

/// Reads the light distribution file of a product.
fn read_ldt_text(t: &LdtText) -> (r: LdtFile)
    ensures
        r@ == ldt_of(*t),
{
    match t {
        LdtText::Unreadable => LdtFile::Unreadable,
        LdtText::Text(s) => match read_ldt(s.as_str()) {
            Some(l) => LdtFile::Read(l),
            None => LdtFile::Malformed,
        },
    }
}

/// The document of a product and the warnings about it. `ldt` is the
/// first light distribution file that the product declares.
pub fn extract(p: &Product, input: ExtractInput, ldt: &LdtText) -> (r: ExtractOutput)
    ensures
        doc_extracted(p@, input, ldt_of(*ldt), r.doc@),
        warning_views(r.warnings@) == all_warnings(p@, input, ldt_of(*ldt)),
{
    let file: LdtFile = read_ldt_text(ldt);
    extract_with(p, input, &file)
}

/// The document of a product and the warnings about it. `ldt` is what
/// came of reading the first light distribution file that the product
/// declares.
#[verifier::spinoff_prover]
pub fn extract_with(p: &Product, input: ExtractInput, ldt: &LdtFile) -> (r: ExtractOutput)
    ensures
        doc_extracted(p@, input, ldt@, r.doc@),
        warning_views(r.warnings@) == all_warnings(p@, input, ldt@),
{
    let ghost given = input;
    let mut warnings: Vec<ExtractWarning> = Vec::new();
    proof {
        assert(warning_views(warnings@) =~= Seq::empty());
    }
    let manufacturer: ManufacturerName = normalise(p.header.manufacturer.as_str());
    if manufacturer.display.as_str().is_empty() {
        warn(&mut warnings, ExtractWarning::ManufacturerEmpty);
    }
    let uid: Option<&str> = match &p.header.unique_gldf_id {
        Some(s) => Some(s.as_str()),
        None => None,
    };
    let id: DocId = derive_doc_id(uid, input.raw_bytes);
    let zero: DocId = DocId([0;32]);
    proof {
        assert(zero@ =~= no_identity());
    }
    if crate::doc::same_id(&id, &zero) {
        warn(&mut warnings, ExtractWarning::DocIdUnavailable);
    }
    let ghost head = warning_views(warnings@);
    let product: String = match first_locale_value(&p.name) {
        Some(s) => s,
        None => String::new(),
    };
    let lamp_type: Option<u8> = pluck_cie97_lamp_type(p);
    let interfaces: IdList = pluck_control_gear_interfaces(p);
    let mut g: Gathered = Gathered {
        keywords: Vec::new(),
        applications: IdList::new(),
        labels: IdList::new(),
        adjustability: IdList::new(),
        ip_code: None,
        safety_class: None,
        ik_rating: None,
        product_form: None,
    };
    let mut variants: Vec<VariantDoc> = Vec::new();
    let ghost v = p@;
    proof {
        reveal(gathers);
        assert(texts(g.keywords@) =~= Seq::empty());
        assert(gathers(v.variants, 0, g));
        assert(head + warnings_to(v, ldt@, 0) =~= head);
    }
    let mut i: usize = 0;
    while i < p.variants.len()
        invariant
            i <= p.variants@.len(),
            v == p@,
            gathers(v.variants, i as int, g),
            variants@.len() == i,
            forall|k: int| 0 <= k < i ==> (#[trigger] variants@[k])@ == variant_doc(v, ldt@, k),
            warning_views(warnings@) == head + warnings_to(v, ldt@, i as int),
            lamp_type == lamp_type_of(v),
            interfaces@ == interfaces_of(
                v.control_gear_interfaces,
                v.control_gear_interfaces.len() as int,
            ),
        decreases p.variants@.len() - i,
    {
        let ghost ws = warning_views(warnings@);
        let next: VariantDoc = take_variant(
            p,
            i,
            ldt,
            lamp_type,
            &interfaces,
            &mut g,
            &mut warnings,
        );
        proof {
            assert(ws + variant_warnings(v, v.variants[i as int], ldt@) =~= head + warnings_to(
                v,
                ldt@,
                i + 1,
            ));
        }
        variants.push(next);
        i += 1;
    }
    let source: SourceRef = match input.source {
        Some(s) => s,
        None => SourceRef::ContentOnly,
    };
    let mut source_paths: Vec<SourceRef> = Vec::new();
    source_paths.push(source.copy());
    let file_meta: FileMeta = match input.file_meta {
        Some(m) => m,
        None => FileMeta {
            size_bytes: 0,
            mtime_epoch_s: None,
            format_version: Some(format_version_string(p.header.format_version)),
        },
    };
    let doc: LuminaireDoc = LuminaireDoc {
        id,
        source,
        source_paths,
        manufacturer: manufacturer.display,
        product,
        gtin: product_gtin(p),
        product_code: first_locale_value(&p.product_number),
        descriptions: gather_descriptions(p),
        keywords: g.keywords,
        applications: g.applications,
        labels: g.labels,
        adjustability: g.adjustability,
        ip_code: g.ip_code,
        safety_class: g.safety_class,
        ik_rating: g.ik_rating,
        product_form: g.product_form,
        variants,
        file_meta,
    };
    proof {
        reveal(gathers);
        assert(source_views(doc.source_paths@) =~= seq![source_of(given)]);
        assert(variant_views(doc.variants@) =~= Seq::new(
            v.variants.len(),
            |k: int| variant_doc(v, ldt@, k),
        ));
        assert(head + warnings_to(v, ldt@, v.variants.len() as int) =~= all_warnings(
            v,
            given,
            ldt@,
        ));
    }
    ExtractOutput { doc, warnings }
}

} // verus!
