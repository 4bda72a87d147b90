//! The spans of the measurements under a filter, each with its own
//! range relaxed.

use crate::doc::{doc_views, DocView, LuminaireDoc, MountingType, VariantDoc, VariantView};
use crate::facets::{F32Bounds, RangeBounds, U16Bounds, U32Bounds};
use crate::filter::{doc_matches, variant_matches, Filter, FilterView};
use crate::keys::{finite_key, is_finite_key};
use vstd::prelude::*;

verus! {

/// The measurements that have a range in the filter.
#[derive(Clone, Copy, PartialEq, Eq, Debug, Structural)]
pub enum NumericAxis {
    /// Luminous flux.
    Flux,
    /// Electrical power.
    Power,
    /// Luminous efficacy.
    Efficacy,
    /// Correlated colour temperature.
    Cct,
    /// Half-peak beam angle.
    Beam,
    /// Depth of the recess.
    RecessedDepth,
}

/// `f` with the range of one measurement asking nothing. The other
/// demands stay, that on the mounting type among them.
pub open spec fn range_relaxed(f: FilterView, axis: NumericAxis) -> FilterView {
    match axis {
        NumericAxis::Flux => FilterView { flux_lm: None, ..f },
        NumericAxis::Power => FilterView { power_w: None, ..f },
        NumericAxis::Efficacy => FilterView { efficacy: None, ..f },
        NumericAxis::Cct => FilterView { cct_k: None, ..f },
        NumericAxis::Beam => FilterView { beam_deg: None, ..f },
        NumericAxis::RecessedDepth => FilterView { recessed_depth_mm: None, ..f },
    }
}

/// A measurement, where it is known and finite.
pub open spec fn finite_value(k: Option<i32>) -> Option<int> {
    match k {
        Some(x) => if finite_key(x) {
            Some(x as int)
        } else {
            None
        },
        None => None,
    }
}

/// The value that a variant puts on an axis. A depth counts for
/// recessed variants only.
pub open spec fn axis_value(v: VariantView, axis: NumericAxis) -> Option<int> {
    match axis {
        NumericAxis::RecessedDepth => match v.recessed_depth_mm {
            Some(d) => if v.mounting_type == MountingType::Recessed {
                Some(d as int)
            } else {
                None
            },
            None => None,
        },
        _ => match v.photometry {
            Some(p) => match axis {
                NumericAxis::Flux => finite_value(p.flux_lm),
                NumericAxis::Power => finite_value(p.power_w),
                NumericAxis::Efficacy => finite_value(p.efficacy_lm_w),
                NumericAxis::Beam => finite_value(p.beam_deg),
                _ => match p.cct_k {
                    Some(k) => Some(k as int),
                    None => None,
                },
            },
            None => None,
        },
    }
}

/// Whether the `j`th variant of the `i`th document matches the filter
/// and puts `x` on the axis.
pub open spec fn contributes(
    docs: Seq<DocView>,
    f: FilterView,
    axis: NumericAxis,
    i: int,
    j: int,
    x: int,
) -> bool {
    &&& 0 <= i < docs.len()
    &&& 0 <= j < docs[i].variants.len()
    &&& doc_matches(f, docs[i])
    &&& variant_matches(f, docs[i].variants[j])
    &&& axis_value(docs[i].variants[j], axis) == Some(x)
}

/// Whether some matching variant puts `x` on the axis.
pub open spec fn reached(docs: Seq<DocView>, f: FilterView, axis: NumericAxis, x: int) -> bool {
    exists|i: int, j: int| contributes(docs, f, axis, i, j, x)
}

/// Whether `b` is the span of the values on the axis: its ends are
/// reached, nothing lies outside, and there is none where nothing is
/// reached.
pub open spec fn is_span(
    b: Option<(int, int)>,
    docs: Seq<DocView>,
    f: FilterView,
    axis: NumericAxis,
) -> bool {
    match b {
        Some((lo, hi)) => {
            &&& reached(docs, f, axis, lo)
            &&& reached(docs, f, axis, hi)
            &&& forall|x: int| #[trigger] reached(docs, f, axis, x) ==> lo <= x <= hi
        },
        None => forall|x: int| !#[trigger] reached(docs, f, axis, x),
    }
}

/// A span of measurements as a pair of numbers.
pub open spec fn f32_span(b: Option<F32Bounds>) -> Option<(int, int)> {
    match b {
        Some(s) => Some((s.min as int, s.max as int)),
        None => None,
    }
}

/// A span of colour temperatures as a pair of numbers.
pub open spec fn u16_span(b: Option<U16Bounds>) -> Option<(int, int)> {
    match b {
        Some(s) => Some((s.min as int, s.max as int)),
        None => None,
    }
}

/// A span of depths as a pair of numbers.
pub open spec fn u32_span(b: Option<U32Bounds>) -> Option<(int, int)> {
    match b {
        Some(s) => Some((s.min as int, s.max as int)),
        None => None,
    }
}

/// Whether `b` holds the span of every axis under `f`, each with its own
/// range relaxed.
pub open spec fn are_bounds(b: RangeBounds, docs: Seq<DocView>, f: FilterView) -> bool {
    &&& is_span(f32_span(b.flux_lm), docs, range_relaxed(f, NumericAxis::Flux), NumericAxis::Flux)
    &&& is_span(
        f32_span(b.power_w),
        docs,
        range_relaxed(f, NumericAxis::Power),
        NumericAxis::Power,
    )
    &&& is_span(
        f32_span(b.efficacy),
        docs,
        range_relaxed(f, NumericAxis::Efficacy),
        NumericAxis::Efficacy,
    )
    &&& is_span(u16_span(b.cct_k), docs, range_relaxed(f, NumericAxis::Cct), NumericAxis::Cct)
    &&& is_span(f32_span(b.beam_deg), docs, range_relaxed(f, NumericAxis::Beam), NumericAxis::Beam)
    &&& is_span(
        u32_span(b.recessed_depth_mm),
        docs,
        range_relaxed(f, NumericAxis::RecessedDepth),
        NumericAxis::RecessedDepth,
    )
}

/// The span of an axis does not depend on the range that the filter
/// asks for on that axis.
pub proof fn own_range_is_ignored(f: FilterView, g: FilterView, axis: NumericAxis)
    requires
        range_relaxed(f, axis) == range_relaxed(g, axis),
    ensures
        forall|b: Option<(int, int)>, docs: Seq<DocView>| #[trigger]
            is_span(b, docs, range_relaxed(f, axis), axis) == is_span(
                b,
                docs,
                range_relaxed(g, axis),
                axis,
            ),
{
}

/// An axis has one span.
pub proof fn span_is_unique(
    a: Option<(int, int)>,
    b: Option<(int, int)>,
    docs: Seq<DocView>,
    f: FilterView,
    axis: NumericAxis,
)
    requires
        is_span(a, docs, f, axis),
        is_span(b, docs, f, axis),
    ensures
        a == b,
{
}

/// The span of the flux holds the flux of every variant that
/// matches, and its ends are those of variants that would match if the
/// filter asked nothing of it.
pub proof fn flux_span_holds_matches(b: RangeBounds, docs: Seq<DocView>, f: FilterView)
    requires
        are_bounds(b, docs, f),
    ensures
        ({
            let g = FilterView { flux_lm: None, ..f };
            let has = |i: int, j: int, x: int|
                0 <= i < docs.len() && 0 <= j < docs[i].variants.len() && doc_matches(g, docs[i])
                    && variant_matches(g, docs[i].variants[j]) && ({
                let p = docs[i].variants[j].photometry;
                p is Some && p->0.flux_lm is Some && p->0.flux_lm->0 == x && -0x7f80_0000 < x < 0x7f80_0000
            });
            &&& forall|i: int, j: int, x: int| #[trigger]
                has(i, j, x) ==> b.flux_lm is Some && b.flux_lm->0.min <= x <= b.flux_lm->0.max
            &&& b.flux_lm matches Some(s) ==> (exists|i: int, j: int| #[trigger]
                has(i, j, s.min as int)) && (exists|i: int, j: int| #[trigger]
                has(i, j, s.max as int))
        }),
{
    let g = FilterView { flux_lm: None, ..f };
    let axis = NumericAxis::Flux;
    let has = |i: int, j: int, x: int|
        0 <= i < docs.len() && 0 <= j < docs[i].variants.len() && doc_matches(g, docs[i])
            && variant_matches(g, docs[i].variants[j]) && ({
                let p = docs[i].variants[j].photometry;
                p is Some && p->0.flux_lm is Some && p->0.flux_lm->0 == x && -0x7f80_0000 < x < 0x7f80_0000
            });
    assert(range_relaxed(f, axis) == g);
    assert forall|i: int, j: int, x: int| #[trigger] has(i, j, x) implies b.flux_lm is Some
        && b.flux_lm->0.min <= x <= b.flux_lm->0.max by {
        assert(contributes(docs, g, axis, i, j, x));
        assert(reached(docs, g, axis, x));
    }
    if let Some(s) = b.flux_lm {
        let (i, j) = choose|i: int, j: int| contributes(docs, g, axis, i, j, s.min as int);
        assert(has(i, j, s.min as int));
        let (k, m) = choose|i: int, j: int| contributes(docs, g, axis, i, j, s.max as int);
        assert(has(k, m, s.max as int));
    }
}

/// The span of the power holds the power of every variant that
/// matches, and its ends are those of variants that would match if the
/// filter asked nothing of it.
pub proof fn power_span_holds_matches(b: RangeBounds, docs: Seq<DocView>, f: FilterView)
    requires
        are_bounds(b, docs, f),
    ensures
        ({
            let g = FilterView { power_w: None, ..f };
            let has = |i: int, j: int, x: int|
                0 <= i < docs.len() && 0 <= j < docs[i].variants.len() && doc_matches(g, docs[i])
                    && variant_matches(g, docs[i].variants[j]) && ({
                let p = docs[i].variants[j].photometry;
                p is Some && p->0.power_w is Some && p->0.power_w->0 == x && -0x7f80_0000 < x < 0x7f80_0000
            });
            &&& forall|i: int, j: int, x: int| #[trigger]
                has(i, j, x) ==> b.power_w is Some && b.power_w->0.min <= x <= b.power_w->0.max
            &&& b.power_w matches Some(s) ==> (exists|i: int, j: int| #[trigger]
                has(i, j, s.min as int)) && (exists|i: int, j: int| #[trigger]
                has(i, j, s.max as int))
        }),
{
    let g = FilterView { power_w: None, ..f };
    let axis = NumericAxis::Power;
    let has = |i: int, j: int, x: int|
        0 <= i < docs.len() && 0 <= j < docs[i].variants.len() && doc_matches(g, docs[i])
            && variant_matches(g, docs[i].variants[j]) && ({
                let p = docs[i].variants[j].photometry;
                p is Some && p->0.power_w is Some && p->0.power_w->0 == x && -0x7f80_0000 < x < 0x7f80_0000
            });
    assert(range_relaxed(f, axis) == g);
    assert forall|i: int, j: int, x: int| #[trigger] has(i, j, x) implies b.power_w is Some
        && b.power_w->0.min <= x <= b.power_w->0.max by {
        assert(contributes(docs, g, axis, i, j, x));
        assert(reached(docs, g, axis, x));
    }
    if let Some(s) = b.power_w {
        let (i, j) = choose|i: int, j: int| contributes(docs, g, axis, i, j, s.min as int);
        assert(has(i, j, s.min as int));
        let (k, m) = choose|i: int, j: int| contributes(docs, g, axis, i, j, s.max as int);
        assert(has(k, m, s.max as int));
    }
}

/// The span of the efficacy holds the efficacy of every variant that
/// matches, and its ends are those of variants that would match if the
/// filter asked nothing of it.
pub proof fn efficacy_span_holds_matches(b: RangeBounds, docs: Seq<DocView>, f: FilterView)
    requires
        are_bounds(b, docs, f),
    ensures
        ({
            let g = FilterView { efficacy: None, ..f };
            let has = |i: int, j: int, x: int|
                0 <= i < docs.len() && 0 <= j < docs[i].variants.len() && doc_matches(g, docs[i])
                    && variant_matches(g, docs[i].variants[j]) && ({
                let p = docs[i].variants[j].photometry;
                p is Some && p->0.efficacy_lm_w is Some && p->0.efficacy_lm_w->0 == x && -0x7f80_0000 < x < 0x7f80_0000
            });
            &&& forall|i: int, j: int, x: int| #[trigger]
                has(i, j, x) ==> b.efficacy is Some && b.efficacy->0.min <= x <= b.efficacy->0.max
            &&& b.efficacy matches Some(s) ==> (exists|i: int, j: int| #[trigger]
                has(i, j, s.min as int)) && (exists|i: int, j: int| #[trigger]
                has(i, j, s.max as int))
        }),
{
    let g = FilterView { efficacy: None, ..f };
    let axis = NumericAxis::Efficacy;
    let has = |i: int, j: int, x: int|
        0 <= i < docs.len() && 0 <= j < docs[i].variants.len() && doc_matches(g, docs[i])
            && variant_matches(g, docs[i].variants[j]) && ({
                let p = docs[i].variants[j].photometry;
                p is Some && p->0.efficacy_lm_w is Some && p->0.efficacy_lm_w->0 == x && -0x7f80_0000 < x < 0x7f80_0000
            });
    assert(range_relaxed(f, axis) == g);
    assert forall|i: int, j: int, x: int| #[trigger] has(i, j, x) implies b.efficacy is Some
        && b.efficacy->0.min <= x <= b.efficacy->0.max by {
        assert(contributes(docs, g, axis, i, j, x));
        assert(reached(docs, g, axis, x));
    }
    if let Some(s) = b.efficacy {
        let (i, j) = choose|i: int, j: int| contributes(docs, g, axis, i, j, s.min as int);
        assert(has(i, j, s.min as int));
        let (k, m) = choose|i: int, j: int| contributes(docs, g, axis, i, j, s.max as int);
        assert(has(k, m, s.max as int));
    }
}

/// The span of the beam angle holds the beam angle of every variant that
/// matches, and its ends are those of variants that would match if the
/// filter asked nothing of it.
pub proof fn beam_span_holds_matches(b: RangeBounds, docs: Seq<DocView>, f: FilterView)
    requires
        are_bounds(b, docs, f),
    ensures
        ({
            let g = FilterView { beam_deg: None, ..f };
            let has = |i: int, j: int, x: int|
                0 <= i < docs.len() && 0 <= j < docs[i].variants.len() && doc_matches(g, docs[i])
                    && variant_matches(g, docs[i].variants[j]) && ({
                let p = docs[i].variants[j].photometry;
                p is Some && p->0.beam_deg is Some && p->0.beam_deg->0 == x && -0x7f80_0000 < x < 0x7f80_0000
            });
            &&& forall|i: int, j: int, x: int| #[trigger]
                has(i, j, x) ==> b.beam_deg is Some && b.beam_deg->0.min <= x <= b.beam_deg->0.max
            &&& b.beam_deg matches Some(s) ==> (exists|i: int, j: int| #[trigger]
                has(i, j, s.min as int)) && (exists|i: int, j: int| #[trigger]
                has(i, j, s.max as int))
        }),
{
    let g = FilterView { beam_deg: None, ..f };
    let axis = NumericAxis::Beam;
    let has = |i: int, j: int, x: int|
        0 <= i < docs.len() && 0 <= j < docs[i].variants.len() && doc_matches(g, docs[i])
            && variant_matches(g, docs[i].variants[j]) && ({
                let p = docs[i].variants[j].photometry;
                p is Some && p->0.beam_deg is Some && p->0.beam_deg->0 == x && -0x7f80_0000 < x < 0x7f80_0000
            });
    assert(range_relaxed(f, axis) == g);
    assert forall|i: int, j: int, x: int| #[trigger] has(i, j, x) implies b.beam_deg is Some
        && b.beam_deg->0.min <= x <= b.beam_deg->0.max by {
        assert(contributes(docs, g, axis, i, j, x));
        assert(reached(docs, g, axis, x));
    }
    if let Some(s) = b.beam_deg {
        let (i, j) = choose|i: int, j: int| contributes(docs, g, axis, i, j, s.min as int);
        assert(has(i, j, s.min as int));
        let (k, m) = choose|i: int, j: int| contributes(docs, g, axis, i, j, s.max as int);
        assert(has(k, m, s.max as int));
    }
}

/// The span of the colour temperature holds the colour temperature of every variant that
/// matches, and its ends are those of variants that would match if the
/// filter asked nothing of it.
pub proof fn cct_span_holds_matches(b: RangeBounds, docs: Seq<DocView>, f: FilterView)
    requires
        are_bounds(b, docs, f),
    ensures
        ({
            let g = FilterView { cct_k: None, ..f };
            let has = |i: int, j: int, x: int|
                0 <= i < docs.len() && 0 <= j < docs[i].variants.len() && doc_matches(g, docs[i])
                    && variant_matches(g, docs[i].variants[j]) && ({
                let p = docs[i].variants[j].photometry;
                p is Some && p->0.cct_k is Some && p->0.cct_k->0 == x
            });
            &&& forall|i: int, j: int, x: int| #[trigger]
                has(i, j, x) ==> b.cct_k is Some && b.cct_k->0.min <= x <= b.cct_k->0.max
            &&& b.cct_k matches Some(s) ==> (exists|i: int, j: int| #[trigger]
                has(i, j, s.min as int)) && (exists|i: int, j: int| #[trigger]
                has(i, j, s.max as int))
        }),
{
    let g = FilterView { cct_k: None, ..f };
    let axis = NumericAxis::Cct;
    let has = |i: int, j: int, x: int|
        0 <= i < docs.len() && 0 <= j < docs[i].variants.len() && doc_matches(g, docs[i])
            && variant_matches(g, docs[i].variants[j]) && ({
                let p = docs[i].variants[j].photometry;
                p is Some && p->0.cct_k is Some && p->0.cct_k->0 == x
            });
    assert(range_relaxed(f, axis) == g);
    assert forall|i: int, j: int, x: int| #[trigger] has(i, j, x) implies b.cct_k is Some
        && b.cct_k->0.min <= x <= b.cct_k->0.max by {
        assert(contributes(docs, g, axis, i, j, x));
        assert(reached(docs, g, axis, x));
    }
    if let Some(s) = b.cct_k {
        let (i, j) = choose|i: int, j: int| contributes(docs, g, axis, i, j, s.min as int);
        assert(has(i, j, s.min as int));
        let (k, m) = choose|i: int, j: int| contributes(docs, g, axis, i, j, s.max as int);
        assert(has(k, m, s.max as int));
    }
}

/// The span of the depth holds the depth of every variant that
/// matches, and its ends are those of variants that would match if the
/// filter asked nothing of it.
pub proof fn depth_span_holds_matches(b: RangeBounds, docs: Seq<DocView>, f: FilterView)
    requires
        are_bounds(b, docs, f),
    ensures
        ({
            let g = FilterView { recessed_depth_mm: None, ..f };
            let has = |i: int, j: int, x: int|
                0 <= i < docs.len() && 0 <= j < docs[i].variants.len() && doc_matches(g, docs[i])
                    && variant_matches(g, docs[i].variants[j]) && ({
                let w = docs[i].variants[j];
                w.mounting_type == MountingType::Recessed && w.recessed_depth_mm is Some
                    && w.recessed_depth_mm->0 == x
            });
            &&& forall|i: int, j: int, x: int| #[trigger]
                has(i, j, x) ==> b.recessed_depth_mm is Some && b.recessed_depth_mm->0.min <= x <= b.recessed_depth_mm->0.max
            &&& b.recessed_depth_mm matches Some(s) ==> (exists|i: int, j: int| #[trigger]
                has(i, j, s.min as int)) && (exists|i: int, j: int| #[trigger]
                has(i, j, s.max as int))
        }),
{
    let g = FilterView { recessed_depth_mm: None, ..f };
    let axis = NumericAxis::RecessedDepth;
    let has = |i: int, j: int, x: int|
        0 <= i < docs.len() && 0 <= j < docs[i].variants.len() && doc_matches(g, docs[i])
            && variant_matches(g, docs[i].variants[j]) && ({
                let w = docs[i].variants[j];
                w.mounting_type == MountingType::Recessed && w.recessed_depth_mm is Some
                    && w.recessed_depth_mm->0 == x
            });
    assert(range_relaxed(f, axis) == g);
    assert forall|i: int, j: int, x: int| #[trigger] has(i, j, x) implies b.recessed_depth_mm is Some
        && b.recessed_depth_mm->0.min <= x <= b.recessed_depth_mm->0.max by {
        assert(contributes(docs, g, axis, i, j, x));
        assert(reached(docs, g, axis, x));
    }
    if let Some(s) = b.recessed_depth_mm {
        let (i, j) = choose|i: int, j: int| contributes(docs, g, axis, i, j, s.min as int);
        assert(has(i, j, s.min as int));
        let (k, m) = choose|i: int, j: int| contributes(docs, g, axis, i, j, s.max as int);
        assert(has(k, m, s.max as int));
    }
}

/// `filter` with the range of one measurement asking nothing.
pub fn relax_numeric(filter: &Filter, axis: NumericAxis) -> (r: Filter)
    ensures
        r@ == range_relaxed(filter@, axis),
{
    let mut f: Filter = filter.copy();
    match axis {
        NumericAxis::Flux => f.flux_lm = None,
        NumericAxis::Power => f.power_w = None,
        NumericAxis::Efficacy => f.efficacy = None,
        NumericAxis::Cct => f.cct_k = None,
        NumericAxis::Beam => f.beam_deg = None,
        NumericAxis::RecessedDepth => f.recessed_depth_mm = None,
    }
    f
}

/// A measurement, where it is known and finite.
fn finite(k: Option<i32>) -> (r: Option<i64>)
    ensures
        finite_value(k) == (match r {
            Some(x) => Some(x as int),
            None => None,
        }),
        r matches Some(x) ==> i32::MIN <= x <= i32::MAX,
{
    match k {
        Some(x) => if is_finite_key(x) {
            Some(x as i64)
        } else {
            None
        },
        None => None,
    }
}

/// The numbers that can stand on an axis.
spec fn axis_range(axis: NumericAxis, x: int) -> bool {
    match axis {
        NumericAxis::Cct => 0 <= x <= u16::MAX,
        NumericAxis::RecessedDepth => 0 <= x <= u32::MAX,
        _ => i32::MIN <= x <= i32::MAX,
    }
}

/// The value that a variant puts on an axis.
fn value_on(v: &VariantDoc, axis: NumericAxis) -> (r: Option<i64>)
    ensures
        axis_value(v@, axis) == (match r {
            Some(x) => Some(x as int),
            None => None,
        }),
        r matches Some(x) ==> axis_range(axis, x as int),
{
    if axis == NumericAxis::RecessedDepth {
        return match v.recessed_depth_mm {
            Some(d) => if v.mounting_type == MountingType::Recessed {
                Some(d as i64)
            } else {
                None
            },
            None => None,
        };
    }
    match &v.photometry {
        Some(p) => match axis {
            NumericAxis::Flux => finite(p.flux_lm),
            NumericAxis::Power => finite(p.power_w),
            NumericAxis::Efficacy => finite(p.efficacy_lm_w),
            NumericAxis::Beam => finite(p.beam_deg),
            _ => match p.cct_k {
                Some(k) => Some(k as i64),
                None => None,
            },
        },
        None => None,
    }
}

/// Whether `b` spans what the first `i` documents and the first `j`
/// variants of the next one put on the axis.
spec fn spans_so_far(
    b: Option<(i64, i64)>,
    docs: Seq<DocView>,
    f: FilterView,
    axis: NumericAxis,
    i: int,
    j: int,
) -> bool {
    match b {
        Some((lo, hi)) => {
            &&& axis_range(axis, lo as int)
            &&& axis_range(axis, hi as int)
            &&& reached(docs, f, axis, lo as int)
            &&& reached(docs, f, axis, hi as int)
            &&& forall|p: int, q: int, x: int| #[trigger]
                contributes(docs, f, axis, p, q, x) && (p < i || (p == i && q < j)) ==> lo <= x
                    <= hi
        },
        None => forall|p: int, q: int, x: int|
            (p < i || (p == i && q < j)) ==> !#[trigger] contributes(docs, f, axis, p, q, x),
    }
}

/// The span of the values that matching variants put on an axis.
fn fold_axis(docs: &Vec<LuminaireDoc>, filter: &Filter, axis: NumericAxis) -> (r: Option<
    (i64, i64),
>)
    ensures
        is_span(
            match r {
                Some((lo, hi)) => Some((lo as int, hi as int)),
                None => None,
            },
            doc_views(docs@),
            range_relaxed(filter@, axis),
            axis,
        ),
        r matches Some((lo, hi)) ==> axis_range(axis, lo as int) && axis_range(axis, hi as int),
{
    let relaxed: Filter = relax_numeric(filter, axis);
    let ghost f = range_relaxed(filter@, axis);
    let ghost views = doc_views(docs@);
    let mut b: Option<(i64, i64)> = None;
    let mut i: usize = 0;
    while i < docs.len()
        invariant
            i <= docs@.len(),
            views == doc_views(docs@),
            relaxed@ == f,
            spans_so_far(b, views, f, axis, i as int, 0),
        decreases docs@.len() - i,
    {
        let doc: &LuminaireDoc = &docs[i];
        proof {
            assert(views[i as int] == doc@);
        }
        if relaxed.matches_doc(doc) {
            let mut j: usize = 0;
            while j < doc.variants.len()
                invariant
                    i < docs@.len(),
                    j <= doc.variants@.len(),
                    views == doc_views(docs@),
                    relaxed@ == f,
                    views[i as int] == doc@,
                    doc_matches(f, doc@),
                    spans_so_far(b, views, f, axis, i as int, j as int),
                decreases doc.variants@.len() - j,
            {
                let v: &VariantDoc = &doc.variants[j];
                proof {
                    assert(doc@.variants[j as int] == v@);
                }
                if relaxed.matches_variant(v) {
                    if let Some(x) = value_on(v, axis) {
                        proof {
                            assert(contributes(views, f, axis, i as int, j as int, x as int));
                        }
                        b = match b {
                            Some((lo, hi)) => Some(
                                (
                                    if x < lo {
                                        x
                                    } else {
                                        lo
                                    },
                                    if x > hi {
                                        x
                                    } else {
                                        hi
                                    },
                                ),
                            ),
                            None => Some((x, x)),
                        };
                    }
                }
                j += 1;
            }
        }
        i += 1;
    }
    b
}

/// The span of a measurement that is held by order keys.
pub fn fold_f32_axis(docs: &Vec<LuminaireDoc>, filter: &Filter, axis: NumericAxis) -> (r: Option<
    F32Bounds,
>)
    requires
        axis != NumericAxis::Cct,
        axis != NumericAxis::RecessedDepth,
    ensures
        is_span(f32_span(r), doc_views(docs@), range_relaxed(filter@, axis), axis),
{
    match fold_axis(docs, filter, axis) {
        Some((lo, hi)) => Some(F32Bounds { min: lo as i32, max: hi as i32 }),
        None => None,
    }
}

/// The span of the colour temperatures.
pub fn fold_u16_axis(docs: &Vec<LuminaireDoc>, filter: &Filter) -> (r: Option<U16Bounds>)
    ensures
        is_span(
            u16_span(r),
            doc_views(docs@),
            range_relaxed(filter@, NumericAxis::Cct),
            NumericAxis::Cct,
        ),
{
    match fold_axis(docs, filter, NumericAxis::Cct) {
        Some((lo, hi)) => Some(U16Bounds { min: lo as u16, max: hi as u16 }),
        None => None,
    }
}

/// The span of the depths.
pub fn fold_u32_axis(docs: &Vec<LuminaireDoc>, filter: &Filter) -> (r: Option<U32Bounds>)
    ensures
        is_span(
            u32_span(r),
            doc_views(docs@),
            range_relaxed(filter@, NumericAxis::RecessedDepth),
            NumericAxis::RecessedDepth,
        ),
{
    match fold_axis(docs, filter, NumericAxis::RecessedDepth) {
        Some((lo, hi)) => Some(U32Bounds { min: lo as u32, max: hi as u32 }),
        None => None,
    }
}

/// The span of every axis, each with its own range relaxed.
pub fn bounds_of(docs: &Vec<LuminaireDoc>, filter: &Filter) -> (r: RangeBounds)
    ensures
        are_bounds(r, doc_views(docs@), filter@),
{
    RangeBounds {
        flux_lm: fold_f32_axis(docs, filter, NumericAxis::Flux),
        power_w: fold_f32_axis(docs, filter, NumericAxis::Power),
        efficacy: fold_f32_axis(docs, filter, NumericAxis::Efficacy),
        cct_k: fold_u16_axis(docs, filter),
        beam_deg: fold_f32_axis(docs, filter, NumericAxis::Beam),
        recessed_depth_mm: fold_u32_axis(docs, filter),
    }
}

} // verus!
