//! Searching from the command line: from what was asked to the lines of
//! the answer.

use crate::doc::{locale_of, variant_views, DocView, Locale, LuminaireDoc};
use crate::extract::canonical_ids;
use crate::facets::{counts_of, facet_list, relaxed, FacetCounts, FacetField, FacetValueCount};
use crate::filter::{open_filter, Filter, FilterView, KeyRange, U16Range};
use crate::hits::{all_hits, hit_views, page_of, Pagination, SearchResult};
use crate::ids::IdList;
use crate::index::{InMemoryIndex, IndexSource};
use crate::tables::{id_of, value_id, value_of, value_text, Axis};
use crate::text::{
    ascii_digit, chars_of, copy_opt_text, copy_texts, decimal, opt_text, owned, parse_unsigned, push_text,
    string_of_range, text_before, text_lt, texts, to_decimal, trim, trimmed, unsigned_of,
};
use vstd::prelude::*;

verus! {

// ---------------------------------------------------------------------
// Arguments
// ---------------------------------------------------------------------

/// What was asked on the command line.
#[derive(Debug)]
pub struct SearchArgs {
    /// Corpus directory.
    pub root: String,
    /// Text.
    pub text: Option<String>,
    /// Language code.
    pub locale: Option<String>,
    /// Manufacturers.
    pub manufacturer: Vec<String>,
    /// IP codes.
    pub ip_code: Vec<String>,
    /// Labels.
    pub labels: Vec<String>,
    /// Product forms.
    pub product_form: Vec<String>,
    /// Luminous flux (lm).
    pub flux_lm: Option<KeyRange>,
    /// Colour temperature (K).
    pub cct_k: Option<U16Range>,
    /// Presence of photometric figures.
    pub has_photometry: Option<bool>,
    /// Whether facet counts are wanted.
    pub facets: bool,
    /// Number of the page, from zero on.
    pub page: u32,
    /// Hits per page.
    pub limit: u32,
}

/// A value that was passed over.
#[derive(Debug, PartialEq, Eq)]
pub enum Ignored {
    /// A language code of other than two letters.
    Locale(String),
    /// No IP code.
    IpCode(String),
    /// No label.
    Label(String),
    /// No product form.
    ProductForm(String),
}

/// The view of an [`Ignored`] value.
pub enum IgnoredView {
    /// A language code.
    Locale(Seq<char>),
    /// No IP code.
    IpCode(Seq<char>),
    /// No label.
    Label(Seq<char>),
    /// No product form.
    ProductForm(Seq<char>),
}

impl View for Ignored {
    type V = IgnoredView;

    open spec fn view(&self) -> IgnoredView {
        match self {
            Ignored::Locale(s) => IgnoredView::Locale(s@),
            Ignored::IpCode(s) => IgnoredView::IpCode(s@),
            Ignored::Label(s) => IgnoredView::Label(s@),
            Ignored::ProductForm(s) => IgnoredView::ProductForm(s@),
        }
    }
}

/// The views of several ignored values.
pub open spec fn ignored_views(v: Seq<Ignored>) -> Seq<IgnoredView> {
    v.map_values(|w: Ignored| w@)
}

/// What is said of an ignored value.
pub open spec fn ignored_text(w: IgnoredView) -> Seq<char> {
    match w {
        IgnoredView::Locale(s) => "ignoring non-2-letter locale: "@ + s,
        IgnoredView::IpCode(s) => "ignoring non-canonical IP code: "@ + s,
        IgnoredView::Label(s) => "ignoring non-canonical label: "@ + s,
        IgnoredView::ProductForm(s) => "ignoring non-canonical product form: "@ + s,
    }
}

impl Ignored {
    /// What is said of it.
    pub fn message(&self) -> (r: String)
        ensures
            r@ == ignored_text(self@),
    {
        let (head, value): (&str, &String) = match self {
            Ignored::Locale(s) => ("ignoring non-2-letter locale: ", s),
            Ignored::IpCode(s) => ("ignoring non-canonical IP code: ", s),
            Ignored::Label(s) => ("ignoring non-canonical label: ", s),
            Ignored::ProductForm(s) => ("ignoring non-canonical product form: ", s),
        };
        let mut r: String = owned(head);
        push_text(&mut r, value.as_str());
        r
    }
}

/// The ignored value of an axis.
pub open spec fn ignored_on(axis: Axis, s: Seq<char>) -> IgnoredView {
    match axis {
        Axis::IpCode => IgnoredView::IpCode(s),
        Axis::Label => IgnoredView::Label(s),
        _ => IgnoredView::ProductForm(s),
    }
}

/// Those of `raws` that are no values of an axis.
pub open spec fn ignored_among(axis: Axis, raws: Seq<Seq<char>>) -> Seq<IgnoredView>
    decreases raws.len(),
{
    if raws.len() == 0 {
        Seq::empty()
    } else {
        let front = ignored_among(axis, raws.drop_last());
        if value_id(axis, raws.last()) is None {
            front.push(ignored_on(axis, raws.last()))
        } else {
            front
        }
    }
}

/// The filter that was asked for.
pub open spec fn asked_filter(a: SearchArgs) -> FilterView {
    FilterView {
        text: opt_text(a.text),
        locale: match a.locale {
            Some(s) => locale_of(s@),
            None => None,
        },
        manufacturer: if a.manufacturer@.len() > 0 {
            Some(texts(a.manufacturer@))
        } else {
            None
        },
        ip_code: canonical_ids(Axis::IpCode, texts(a.ip_code@)),
        labels: canonical_ids(Axis::Label, texts(a.labels@)),
        product_form: canonical_ids(Axis::ProductForm, texts(a.product_form@)),
        flux_lm: a.flux_lm,
        cct_k: a.cct_k,
        has_photometry: a.has_photometry,
        ..open_filter()
    }
}

/// What of the arguments was passed over.
pub open spec fn asked_ignored(a: SearchArgs) -> Seq<IgnoredView> {
    (match a.locale {
        Some(s) => if locale_of(s@) is None {
            seq![IgnoredView::Locale(s@)]
        } else {
            Seq::empty()
        },
        None => Seq::empty(),
    }) + ignored_among(Axis::IpCode, texts(a.ip_code@)) + ignored_among(
        Axis::Label,
        texts(a.labels@),
    ) + ignored_among(Axis::ProductForm, texts(a.product_form@))
}

/// Takes in the values of an axis.
fn take_values(axis: Axis, raws: &Vec<String>, ignored: &mut Vec<Ignored>) -> (ids: IdList)
    requires
        axis is IpCode || axis is Label || axis is ProductForm,
    ensures
        ids@ == canonical_ids(axis, texts(raws@)),
        ignored_views(final(ignored)@) == ignored_views(old(ignored)@) + ignored_among(
            axis,
            texts(raws@),
        ),
{
    let ghost all = texts(raws@);
    let ghost before = ignored_views(ignored@);
    let mut ids: IdList = IdList::new();
    let mut i: usize = 0;
    proof {
        assert(all.take(0) =~= Seq::empty());
        assert(before + Seq::<IgnoredView>::empty() =~= before);
    }
    while i < raws.len()
        invariant
            axis is IpCode || axis is Label || axis is ProductForm,
            i <= raws@.len(),
            all == texts(raws@),
            ids@ == canonical_ids(axis, all.take(i as int)),
            ignored_views(ignored@) == before + ignored_among(axis, all.take(i as int)),
        decreases raws@.len() - i,
    {
        proof {
            assert(all[i as int] == raws@[i as int]@);
            assert(all.take(i + 1).drop_last() =~= all.take(i as int));
            assert(all.take(i + 1).last() == all[i as int]);
        }
        match id_of(axis, raws[i].as_str()) {
            Some(id) => {
                ids.push(id);
            },
            None => {
                let s: String = raws[i].clone();
                let w: Ignored = match axis {
                    Axis::IpCode => Ignored::IpCode(s),
                    Axis::Label => Ignored::Label(s),
                    _ => Ignored::ProductForm(s),
                };
                let ghost had = ignored_views(ignored@);
                ignored.push(w);
                proof {
                    assert(ignored_views(ignored@) =~= had.push(ignored_on(axis, all[i as int])));
                    assert(had.push(ignored_on(axis, all[i as int])) =~= before + ignored_among(
                        axis,
                        all.take(i + 1),
                    ));
                }
            },
        }
        i += 1;
    }
    proof {
        assert(all.take(all.len() as int) =~= all);
    }
    ids
}

/// The filter that was asked for, and what was passed over.
pub fn build_filter(a: &SearchArgs) -> (r: (Filter, Vec<Ignored>))
    ensures
        r.0@ == asked_filter(*a),
        ignored_views(r.1@) == asked_ignored(*a),
{
    let mut ignored: Vec<Ignored> = Vec::new();
    proof {
        assert(ignored_views(ignored@) =~= Seq::empty());
    }
    let mut f: Filter = Filter::default();
    f.text = copy_opt_text(&a.text);
    match &a.locale {
        Some(s) => {
            match Locale::from_str(s.as_str()) {
                Some(l) => {
                    f.locale = Some(l);
                },
                None => {
                    ignored.push(Ignored::Locale(s.clone()));
                    proof {
                        assert(ignored_views(ignored@) =~= seq![IgnoredView::Locale(s@)]);
                    }
                },
            }
        },
        None => {},
    }
    if a.manufacturer.len() > 0 {
        f.manufacturer = Some(copy_texts(&a.manufacturer));
    }
    f.ip_code = take_values(Axis::IpCode, &a.ip_code, &mut ignored);
    f.labels = take_values(Axis::Label, &a.labels, &mut ignored);
    f.product_form = take_values(Axis::ProductForm, &a.product_form, &mut ignored);
    f.flux_lm = a.flux_lm;
    f.cct_k = a.cct_k;
    f.has_photometry = a.has_photometry;
    (f, ignored)
}

/// The page that was asked for.
pub open spec fn asked_page(a: SearchArgs) -> Pagination {
    Pagination {
        offset: if a.page * a.limit <= u32::MAX {
            (a.page * a.limit) as u32
        } else {
            u32::MAX
        },
        limit: a.limit,
    }
}

/// A page begins behind all pages before it, and shows as many hits as
/// were asked for; a page beyond all numbers begins behind them all.
pub proof fn pages_follow_each_other(a: SearchArgs)
    ensures
        asked_page(a).limit == a.limit,
        a.page == 0 ==> asked_page(a).offset == 0,
        a.page * a.limit <= u32::MAX ==> asked_page(a).offset == a.page * a.limit,
        a.page * a.limit > u32::MAX ==> asked_page(a).offset == u32::MAX,
{
    if a.page == 0 {
        assert(a.page * a.limit == 0) by (nonlinear_arith)
            requires
                a.page == 0,
        ;
    }
}

/// What is asked for is demanded, field by field, and nothing else is;
/// the values of closed lists by their ids.
#[verifier::spinoff_prover]
pub proof fn arguments_become_demands(a: SearchArgs, id: u8)
    ensures
        ({
            let f = asked_filter(a);
            &&& a.text is Some ==> f.text == Some(a.text->0@)
            &&& a.text is None ==> f.text is None
            &&& a.locale is Some ==> f.locale == locale_of(a.locale->0@)
            &&& a.locale is None ==> f.locale is None
            &&& a.manufacturer@.len() == 0 ==> f.manufacturer is None
            &&& a.manufacturer@.len() > 0 ==> f.manufacturer == Some(texts(a.manufacturer@))
            &&& f.ip_code.contains(id) <==> exists|i: int|
                0 <= i < a.ip_code@.len() && value_id(Axis::IpCode, (#[trigger] a.ip_code@[i])@)
                    == Some(id)
            &&& f.labels.contains(id) <==> exists|i: int|
                0 <= i < a.labels@.len() && value_id(Axis::Label, (#[trigger] a.labels@[i])@) == Some(
                    id,
                )
            &&& f.product_form.contains(id) <==> exists|i: int|
                0 <= i < a.product_form@.len() && value_id(
                    Axis::ProductForm,
                    (#[trigger] a.product_form@[i])@,
                ) == Some(id)
            &&& f.flux_lm == a.flux_lm && f.cct_k == a.cct_k && f.has_photometry == a.has_photometry
            &&& f.power_w is None && f.efficacy is None && f.beam_deg is None && f.cri_min is None
            &&& f.recessed_depth_mm is None && f.has_3d is None && f.has_emergency_lighting is None
            &&& f.applications.len() == 0 && f.safety_class.len() == 0 && f.ik_rating.len() == 0
            &&& f.adjustability.len() == 0 && f.light_distribution.len() == 0
            &&& f.lamp_type.len() == 0 && f.control_gear_interfaces.len() == 0
            &&& f.emergency_lighting_type.len() == 0 && f.mounting_place.len() == 0
            &&& f.mounting_type.len() == 0
        }),
{
    asked_ids(Axis::IpCode, a.ip_code@, id);
    asked_ids(Axis::Label, a.labels@, id);
    asked_ids(Axis::ProductForm, a.product_form@, id);
}

proof fn asked_ids(axis: Axis, v: Seq<String>, id: u8)
    ensures
        canonical_ids(axis, texts(v)).contains(id) <==> exists|i: int|
            0 <= i < v.len() && value_id(axis, (#[trigger] v[i])@) == Some(id),
{
    crate::extract::listed_ids_are_declared(axis, texts(v), id);
    let t = texts(v);
    assert(t.len() == v.len());
    assert forall|i: int| 0 <= i < v.len() implies #[trigger] t[i] == v[i]@ by {}
    if exists|i: int| 0 <= i < t.len() && value_id(axis, #[trigger] t[i]) == Some(id) {
        let i = choose|i: int| 0 <= i < t.len() && value_id(axis, #[trigger] t[i]) == Some(id);
        assert(value_id(axis, v[i]@) == Some(id));
    }
    if exists|i: int| 0 <= i < v.len() && value_id(axis, (#[trigger] v[i])@) == Some(id) {
        let i = choose|i: int| 0 <= i < v.len() && value_id(axis, (#[trigger] v[i])@) == Some(id);
        assert(value_id(axis, t[i]) == Some(id));
    }
}

/// A value that is in no closed list is passed over and named; all others
/// are not.
#[verifier::spinoff_prover]
pub proof fn foreign_arguments_are_named(a: SearchArgs)
    ensures
        a.locale is Some && locale_of(a.locale->0@) is None ==> asked_ignored(a).contains(
            IgnoredView::Locale(a.locale->0@),
        ),
        forall|i: int|
            0 <= i < a.ip_code@.len() && value_id(Axis::IpCode, (#[trigger] a.ip_code@[i])@) is None
                ==> asked_ignored(a).contains(IgnoredView::IpCode(a.ip_code@[i]@)),
        forall|i: int|
            0 <= i < a.labels@.len() && value_id(Axis::Label, (#[trigger] a.labels@[i])@) is None
                ==> asked_ignored(a).contains(IgnoredView::Label(a.labels@[i]@)),
        forall|i: int|
            0 <= i < a.product_form@.len() && value_id(
                Axis::ProductForm,
                (#[trigger] a.product_form@[i])@,
            ) is None ==> asked_ignored(a).contains(IgnoredView::ProductForm(a.product_form@[i]@)),
{
    let l = match a.locale {
        Some(s) => if locale_of(s@) is None {
            seq![IgnoredView::Locale(s@)]
        } else {
            Seq::empty()
        },
        None => Seq::empty(),
    };
    let x = ignored_among(Axis::IpCode, texts(a.ip_code@));
    let y = ignored_among(Axis::Label, texts(a.labels@));
    let z = ignored_among(Axis::ProductForm, texts(a.product_form@));
    assert(asked_ignored(a) == l + x + y + z);
    assert forall|w: IgnoredView| #[trigger] (l + x + y + z).contains(w) <==> l.contains(w)
        || x.contains(w) || y.contains(w) || z.contains(w) by {
        ignored_in_either(l, x, w);
        ignored_in_either(l + x, y, w);
        ignored_in_either(l + x + y, z, w);
    }
    if a.locale is Some && locale_of(a.locale->0@) is None {
        assert(l[0] == IgnoredView::Locale(a.locale->0@));
    }
    assert forall|i: int|
        0 <= i < a.ip_code@.len() && value_id(Axis::IpCode, (#[trigger] a.ip_code@[i])@) is None implies asked_ignored(
        a,
    ).contains(IgnoredView::IpCode(a.ip_code@[i]@)) by {
        assert(texts(a.ip_code@)[i] == a.ip_code@[i]@);
        ignored_are_named(Axis::IpCode, texts(a.ip_code@), i);
    }
    assert forall|i: int|
        0 <= i < a.labels@.len() && value_id(Axis::Label, (#[trigger] a.labels@[i])@) is None implies asked_ignored(
        a,
    ).contains(IgnoredView::Label(a.labels@[i]@)) by {
        assert(texts(a.labels@)[i] == a.labels@[i]@);
        ignored_are_named(Axis::Label, texts(a.labels@), i);
    }
    assert forall|i: int|
        0 <= i < a.product_form@.len() && value_id(
            Axis::ProductForm,
            (#[trigger] a.product_form@[i])@,
        ) is None implies asked_ignored(a).contains(
        IgnoredView::ProductForm(a.product_form@[i]@),
    ) by {
        assert(texts(a.product_form@)[i] == a.product_form@[i]@);
        ignored_are_named(Axis::ProductForm, texts(a.product_form@), i);
    }
}

proof fn ignored_in_either(a: Seq<IgnoredView>, b: Seq<IgnoredView>, w: IgnoredView)
    ensures
        (a + b).contains(w) <==> a.contains(w) || b.contains(w),
{
    if a.contains(w) {
        let i = choose|i: int| 0 <= i < a.len() && a[i] == w;
        assert((a + b)[i] == w);
    }
    if b.contains(w) {
        let i = choose|i: int| 0 <= i < b.len() && b[i] == w;
        assert((a + b)[a.len() + i] == w);
    }
}

proof fn ignored_are_named(axis: Axis, raws: Seq<Seq<char>>, i: int)
    requires
        0 <= i < raws.len(),
        value_id(axis, raws[i]) is None,
    ensures
        ignored_among(axis, raws).contains(ignored_on(axis, raws[i])),
    decreases raws.len(),
{
    let front = ignored_among(axis, raws.drop_last());
    let all = ignored_among(axis, raws);
    if i == raws.len() - 1 {
        assert(all[front.len() as int] == ignored_on(axis, raws[i]));
    } else {
        assert(raws.drop_last()[i] == raws[i]);
        ignored_are_named(axis, raws.drop_last(), i);
        let k = choose|k: int| 0 <= k < front.len() && front[k] == ignored_on(axis, raws[i]);
        assert(all[k] == front[k]);
    }
}

/// The page that was asked for.
pub fn page_asked(a: &SearchArgs) -> (r: Pagination)
    ensures
        r == asked_page(*a),
{
    assert(a.page * a.limit <= u32::MAX * u32::MAX) by (nonlinear_arith)
        requires
            a.page <= u32::MAX,
            a.limit <= u32::MAX,
    ;
    let wide: u64 = a.page as u64 * a.limit as u64;
    Pagination {
        offset: if wide <= u32::MAX as u64 {
            wide as u32
        } else {
            u32::MAX
        },
        limit: a.limit,
    }
}

// ---------------------------------------------------------------------
// Ranges and paths
// ---------------------------------------------------------------------

/// Why a range is refused.
#[derive(Clone, Copy, PartialEq, Eq, Debug, Structural)]
pub enum RangeError {
    /// There is no colon between two ends.
    NoColon,
    /// An end is not a number of the kind.
    BadNumber,
}

/// The place of the first colon from `i` on.
pub open spec fn colon_from(s: Seq<char>, i: int) -> Option<int>
    decreases s.len() - i,
{
    if i < 0 || i >= s.len() {
        None
    } else if s[i] == ':' {
        Some(i)
    } else {
        colon_from(s, i + 1)
    }
}

/// The two ends of a range: what stands before its first colon and
/// behind it.
pub open spec fn range_ends(s: Seq<char>) -> Option<(Seq<char>, Seq<char>)> {
    match colon_from(s, 0) {
        Some(i) => Some((s.take(i), s.skip(i + 1))),
        None => None,
    }
}

/// The two ends of a range.
pub fn split_range(s: &str) -> (r: Option<(String, String)>)
    ensures
        match r {
            Some((lo, hi)) => range_ends(s@) == Some((lo@, hi@)),
            None => range_ends(s@) is None,
        },
{
    let cs: Vec<char> = chars_of(s);
    let mut i: usize = 0;
    while i < cs.len()
        invariant
            i <= cs@.len(),
            cs@ == s@,
            colon_from(s@, 0) == colon_from(s@, i as int),
        decreases cs@.len() - i,
    {
        if cs[i] == ':' {
            let lo: String = string_of_range(&cs, 0, i);
            let hi: String = string_of_range(&cs, i + 1, cs.len());
            proof {
                assert(cs@.subrange(0, i as int) =~= s@.take(i as int));
                assert(cs@.subrange(i + 1, cs@.len() as int) =~= s@.skip(i + 1));
            }
            return Some((lo, hi));
        }
        i += 1;
    }
    None
}

/// One end of a range; an empty one stands for the bound.
pub open spec fn end_of(s: Seq<char>, bound: u16) -> Option<u16> {
    if s.len() == 0 {
        Some(bound)
    } else {
        match unsigned_of(s, 65_535) {
            Some(n) => Some(n as u16),
            None => None,
        }
    }
}

/// One end of a range.
fn parse_end(s: &str, bound: u16) -> (r: Option<u16>)
    ensures
        r == end_of(s@, bound),
{
    if s.is_empty() {
        return Some(bound);
    }
    match parse_unsigned(s, 65_535) {
        Some(n) => Some(n as u16),
        None => None,
    }
}

/// A closed range of numbers of sixteen bits, written as two ends with a
/// colon between them. An empty end is unbounded.
pub fn parse_u16_range(s: &str) -> (r: Result<U16Range, RangeError>)
    ensures
        match r {
            Ok(x) => range_ends(s@) matches Some((lo, hi)) && end_of(lo, 0) == Some(x.lo)
                && end_of(hi, u16::MAX) == Some(x.hi),
            Err(RangeError::NoColon) => range_ends(s@) is None,
            Err(RangeError::BadNumber) => range_ends(s@) matches Some((lo, hi)) && (end_of(lo, 0)
                is None || end_of(hi, u16::MAX) is None),
        },
{
    match split_range(s) {
        Some((lo, hi)) => {
            match (parse_end(lo.as_str(), 0), parse_end(hi.as_str(), u16::MAX)) {
                (Some(a), Some(b)) => Ok(U16Range { lo: a, hi: b }),
                _ => Err(RangeError::BadNumber),
            }
        },
        None => Err(RangeError::NoColon),
    }
}

/// Two numerals with a colon between them are the ends of a range, and
/// without a colon there is none.
pub proof fn ranges_are_read(lo: nat, hi: nat, s: Seq<char>)
    requires
        lo <= 65_535,
        hi <= 65_535,
        !s.contains(':'),
    ensures
        range_ends(decimal(lo) + ":"@ + decimal(hi)) == Some((decimal(lo), decimal(hi))),
        end_of(decimal(lo), 0) == Some(lo as u16),
        end_of(decimal(hi), u16::MAX) == Some(hi as u16),
        range_ends(s) is None,
        range_ends(":"@ + decimal(hi)) == Some((Seq::<char>::empty(), decimal(hi))),
        end_of(Seq::empty(), 0) == Some(0u16),
        end_of(Seq::empty(), u16::MAX) == Some(65_535u16),
{
    crate::text::decimal_round_trip(lo);
    crate::text::decimal_round_trip(hi);
    reveal_strlit(":");
    let t = decimal(lo) + ":"@ + decimal(hi);
    let n = decimal(lo).len() as int;
    assert(t[n] == ':');
    assert forall|j: int| 0 <= j < n implies t[j] != ':' by {
        assert(ascii_digit(decimal(lo)[j]));
        assert(t[j] == decimal(lo)[j]);
    }
    colon_found(t, 0, n);
    assert(t.take(n) =~= decimal(lo));
    assert(t.skip(n + 1) =~= decimal(hi));
    assert(ascii_digit(decimal(lo)[0]) && ascii_digit(decimal(hi)[0]));
    no_colon(s, 0);
    let u = ":"@ + decimal(hi);
    assert(u[0] == ':');
    assert(u.take(0) =~= Seq::empty());
    assert(u.skip(1) =~= decimal(hi));
}

proof fn colon_found(s: Seq<char>, i: int, k: int)
    requires
        0 <= i <= k < s.len(),
        s[k] == ':',
        forall|j: int| i <= j < k ==> s[j] != ':',
    ensures
        colon_from(s, i) == Some(k),
    decreases k - i,
{
    if i < k {
        colon_found(s, i + 1, k);
    }
}

proof fn no_colon(s: Seq<char>, i: int)
    requires
        0 <= i <= s.len(),
        !s.contains(':'),
    ensures
        colon_from(s, i) is None,
    decreases s.len() - i,
{
    if i < s.len() {
        assert(s.contains(s[i]));
        no_colon(s, i + 1);
    }
}

/// The key of the greatest finite measurement.
pub const GREATEST_KEY: i32 = 0x7f7f_ffff;

/// A closed range of measurements from the keys of its ends. An absent
/// lower end is zero, an absent upper one the greatest finite number.
pub fn key_range(lo: Option<i32>, hi: Option<i32>) -> (r: KeyRange)
    ensures
        r.lo == (match lo {
            Some(k) => k,
            None => 0i32,
        }),
        r.hi == (match hi {
            Some(k) => k,
            None => GREATEST_KEY,
        }),
{
    KeyRange {
        lo: match lo {
            Some(k) => k,
            None => 0,
        },
        hi: match hi {
            Some(k) => k,
            None => GREATEST_KEY,
        },
    }
}

/// A setting without the white space around it, where that leaves
/// anything.
pub open spec fn setting(s: Option<Seq<char>>) -> Option<Seq<char>> {
    match s {
        Some(t) => if trim(t).len() > 0 {
            Some(trim(t))
        } else {
            None
        },
        None => None,
    }
}

/// A setting without the white space around it.
pub fn clean_setting(s: &Option<String>) -> (r: Option<String>)
    ensures
        opt_text(r) == setting(opt_text(*s)),
{
    match s {
        Some(t) => {
            let t: String = trimmed(t.as_str());
            if t.as_str().is_empty() {
                None
            } else {
                Some(t)
            }
        },
        None => None,
    }
}

/// The corpus directory: the one on the command line, else the one set
/// for debugging, else the one set for all.
pub fn resolve_corpus_root(
    cli: &Option<String>,
    debug: &Option<String>,
    live: &Option<String>,
) -> (r: Option<String>)
    ensures
        opt_text(r) == (if cli is Some {
            opt_text(*cli)
        } else if setting(opt_text(*debug)) is Some {
            setting(opt_text(*debug))
        } else {
            setting(opt_text(*live))
        }),
{
    match cli {
        Some(p) => {
            return Some(p.clone());
        },
        None => {},
    }
    match clean_setting(debug) {
        Some(p) => Some(p),
        None => clean_setting(live),
    }
}

/// The text that stands for a file without a unique id: its path below
/// the corpus root.
pub fn path_identity(rel: &str) -> (r: String)
    ensures
        r@ == "path:"@ + rel@,
{
    let mut r: String = owned("path:");
    push_text(&mut r, rel);
    r
}

// ---------------------------------------------------------------------
// Lines
// ---------------------------------------------------------------------

/// Whether no text of `s` stands before an earlier one.
pub open spec fn in_text_order(s: Seq<Seq<char>>) -> bool {
    forall|i: int, j: int| 0 <= i < j < s.len() ==> !text_lt(#[trigger] s[j], #[trigger] s[i])
}

/// Puts `x` into its place among texts in order.
pub open spec fn text_placed(s: Seq<Seq<char>>, x: Seq<char>) -> Seq<Seq<char>>
    decreases s.len(),
{
    if s.len() == 0 || !text_lt(x, s.last()) {
        s.push(x)
    } else {
        text_placed(s.drop_last(), x).push(s.last())
    }
}

/// The texts of `s` in order.
pub open spec fn sorted_texts(s: Seq<Seq<char>>) -> Seq<Seq<char>>
    decreases s.len(),
{
    if s.len() == 0 {
        Seq::empty()
    } else {
        text_placed(sorted_texts(s.drop_last()), s.last())
    }
}

/// Sorting puts texts in order and loses none.
pub proof fn sorting_sorts(s: Seq<Seq<char>>)
    ensures
        in_text_order(sorted_texts(s)),
        sorted_texts(s).to_multiset() == s.to_multiset(),
    decreases s.len(),
{
    broadcast use vstd::seq_lib::group_to_multiset_ensures;

    if s.len() > 0 {
        sorting_sorts(s.drop_last());
        placing_keeps_order(sorted_texts(s.drop_last()), s.last());
        assert(s =~= s.drop_last().push(s.last()));
    }
}

proof fn placing_keeps_order(s: Seq<Seq<char>>, x: Seq<char>)
    requires
        in_text_order(s),
    ensures
        in_text_order(text_placed(s, x)),
        text_placed(s, x).to_multiset() == s.to_multiset().insert(x),
        forall|i: int|
            0 <= i < text_placed(s, x).len() ==> (#[trigger] text_placed(s, x)[i] == x
                || s.contains(text_placed(s, x)[i])),
    decreases s.len(),
{
    broadcast use vstd::seq_lib::group_to_multiset_ensures;

    let r = text_placed(s, x);
    if s.len() == 0 {
        assert(r =~= s.push(x));
    } else if !text_lt(x, s.last()) {
        assert(r =~= s.push(x));
        assert forall|i: int, j: int| 0 <= i < j < r.len() implies !text_lt(
            #[trigger] r[j],
            #[trigger] r[i],
        ) by {
            if j == s.len() && i < s.len() - 1 {
                let y = s[s.len() - 1];
                assert(!text_lt(y, s[i]));
                if text_lt(x, s[i]) {
                    crate::text::text_lt_total(s[i], y);
                    if s[i] != y {
                        crate::text::text_lt_transitive(x, s[i], y);
                    }
                }
            } else if j < s.len() {
                assert(!text_lt(s[j], s[i]));
            }
        }
        assert forall|i: int| 0 <= i < r.len() implies (#[trigger] r[i] == x || s.contains(
            r[i],
        )) by {
            if i < s.len() {
                assert(s[i] == r[i]);
            }
        }
    } else {
        let t = s.drop_last();
        let y = s.last();
        assert(in_text_order(t)) by {
            assert forall|i: int, j: int| 0 <= i < j < t.len() implies !text_lt(
                #[trigger] t[j],
                #[trigger] t[i],
            ) by {
                assert(!text_lt(s[j], s[i]));
            }
        }
        placing_keeps_order(t, x);
        let u = text_placed(t, x);
        assert(r =~= u.push(y));
        assert(s =~= t.push(y));
        assert forall|i: int| 0 <= i < u.len() implies !text_lt(y, #[trigger] u[i]) by {
            if u[i] == x {
                crate::text::text_lt_asymmetric(x, y);
            } else {
                assert(t.contains(u[i]));
                let k = choose|k: int| 0 <= k < t.len() && t[k] == u[i];
                assert(!text_lt(s[s.len() - 1], s[k]));
            }
        }
        assert forall|i: int| 0 <= i < r.len() implies (#[trigger] r[i] == x || s.contains(
            r[i],
        )) by {
            if i < u.len() {
                assert(r[i] == u[i]);
                if u[i] != x {
                    assert(t.contains(u[i]));
                    let k = choose|k: int| 0 <= k < t.len() && t[k] == u[i];
                    assert(s[k] == u[i]);
                }
            } else {
                assert(s[s.len() - 1] == r[i]);
            }
        }
        assert(u.push(y).to_multiset() =~= s.to_multiset().insert(x));
    }
}

/// Texts with commas between them.
pub open spec fn comma_list(s: Seq<Seq<char>>) -> Seq<char>
    decreases s.len(),
{
    if s.len() == 0 {
        Seq::empty()
    } else if s.len() == 1 {
        s[0]
    } else {
        comma_list(s.drop_last()) + ", "@ + s.last()
    }
}

/// The lines about a document.
pub open spec fn hit_lines(d: DocView) -> Seq<Seq<char>> {
    seq!["\u{2022} ["@ + d.manufacturer + "] "@ + d.product] + (if d.keywords.len() > 0 {
        seq!["    keywords: "@ + comma_list(sorted_texts(d.keywords))]
    } else {
        Seq::empty()
    }) + (match d.ip_code {
        Some(id) => match value_text(Axis::IpCode, id) {
            Some(s) => seq!["    ip_code: "@ + s],
            None => seq![Seq::<char>::empty()],
        },
        None => Seq::empty(),
    }) + (if exists|i: int|
        0 <= i < d.variants.len() && (#[trigger] d.variants[i]).photometry is Some {
        Seq::empty()
    } else {
        seq!["    photometry: missing"@]
    })
}

/// Adds a line.
fn say(lines: &mut Vec<String>, s: String)
    ensures
        texts(final(lines)@) == texts(old(lines)@).push(s@),
{
    let ghost before = texts(lines@);
    let ghost t = s@;
    lines.push(s);
    proof {
        assert(texts(lines@) =~= before.push(t));
    }
}

/// Puts a text into its place.
fn place_text(list: &mut Vec<String>, s: &str)
    ensures
        texts(final(list)@) == text_placed(texts(old(list)@), s@),
    decreases old(list)@.len(),
{
    let ghost before = texts(list@);
    let n: usize = list.len();
    if n == 0 || !text_before(s, list[n - 1].as_str()) {
        list.push(owned(s));
        proof {
            if before.len() > 0 {
                assert(before.last() == old(list)@[n - 1]@);
            }
            assert(texts(list@) =~= before.push(s@));
        }
    } else {
        let last: Option<String> = list.pop();
        proof {
            assert(before.last() == old(list)@[n - 1]@);
            assert(texts(list@) =~= before.drop_last());
        }
        place_text(list, s);
        match last {
            Some(l) => {
                let ghost mid = texts(list@);
                list.push(l);
                proof {
                    assert(texts(list@) =~= mid.push(before.last()));
                }
            },
            None => {},
        }
    }
}

/// Texts in order.
pub fn sort_texts(list: &Vec<String>) -> (r: Vec<String>)
    ensures
        texts(r@) == sorted_texts(texts(list@)),
{
    let ghost all = texts(list@);
    let mut r: Vec<String> = Vec::new();
    let mut i: usize = 0;
    proof {
        assert(texts(r@) =~= Seq::empty());
        assert(all.take(0) =~= Seq::empty());
    }
    while i < list.len()
        invariant
            i <= list@.len(),
            all == texts(list@),
            texts(r@) == sorted_texts(all.take(i as int)),
        decreases list@.len() - i,
    {
        proof {
            assert(all[i as int] == list@[i as int]@);
            assert(all.take(i + 1).drop_last() =~= all.take(i as int));
            assert(all.take(i + 1).last() == all[i as int]);
        }
        place_text(&mut r, list[i].as_str());
        i += 1;
    }
    proof {
        assert(all.take(all.len() as int) =~= all);
    }
    r
}

/// Texts with commas between them.
pub fn join_commas(list: &Vec<String>) -> (r: String)
    ensures
        r@ == comma_list(texts(list@)),
{
    let ghost all = texts(list@);
    let mut r: String = String::new();
    let mut i: usize = 0;
    proof {
        assert(all.take(0) =~= Seq::empty());
        assert(r@ =~= Seq::empty());
    }
    while i < list.len()
        invariant
            i <= list@.len(),
            all == texts(list@),
            r@ == comma_list(all.take(i as int)),
        decreases list@.len() - i,
    {
        proof {
            assert(all[i as int] == list@[i as int]@);
            assert(all.take(i + 1).drop_last() =~= all.take(i as int));
            assert(all.take(i + 1).last() == all[i as int]);
        }
        if i > 0 {
            push_text(&mut r, ", ");
        }
        push_text(&mut r, list[i].as_str());
        proof {
            if i == 0 {
                assert(r@ =~= all[0]);
            }
        }
        i += 1;
    }
    proof {
        assert(all.take(all.len() as int) =~= all);
    }
    r
}

/// Adds the lines about a document.
pub fn print_hit(lines: &mut Vec<String>, d: &LuminaireDoc)
    ensures
        texts(final(lines)@) == texts(old(lines)@) + hit_lines(d@),
{
    let ghost before = texts(lines@);
    let mut s: String = owned("\u{2022} [");
    push_text(&mut s, d.manufacturer.as_str());
    push_text(&mut s, "] ");
    push_text(&mut s, d.product.as_str());
    say(lines, s);
    if d.keywords.len() > 0 {
        let mut s: String = owned("    keywords: ");
        let sorted: Vec<String> = sort_texts(&d.keywords);
        push_text(&mut s, join_commas(&sorted).as_str());
        say(lines, s);
    }
    match d.ip_code {
        Some(id) => {
            match value_of(Axis::IpCode, id) {
                Some(v) => {
                    let mut s: String = owned("    ip_code: ");
                    push_text(&mut s, v);
                    say(lines, s);
                },
                None => {
                    let s: String = String::new();
                    proof {
                        assert(s@ =~= Seq::empty());
                    }
                    say(lines, s);
                },
            }
        },
        None => {},
    }
    let mut found: bool = false;
    let mut i: usize = 0;
    let ghost mid = texts(lines@);
    while i < d.variants.len()
        invariant
            i <= d.variants@.len(),
            texts(lines@) == mid,
            found == exists|k: int|
                0 <= k < i && (#[trigger] variant_views(d.variants@)[k]).photometry is Some,
        decreases d.variants@.len() - i,
    {
        proof {
            assert(variant_views(d.variants@)[i as int] == d.variants@[i as int]@);
        }
        if d.variants[i].photometry.is_some() {
            found = true;
        }
        i += 1;
    }
    if !found {
        say(lines, owned("    photometry: missing"));
    }
    proof {
        assert(texts(lines@) =~= before + hit_lines(d@));
    }
}

/// A numeral with spaces in front, of four characters at least.
pub open spec fn in_four(n: nat) -> Seq<char> {
    if n < 10 {
        "   "@ + decimal(n)
    } else if n < 100 {
        "  "@ + decimal(n)
    } else if n < 1000 {
        " "@ + decimal(n)
    } else {
        decimal(n)
    }
}

/// The lines about the counts of a field: at most ten values, and how
/// many more there are.
pub open spec fn section_lines(name: Seq<char>, list: Seq<FacetValueCount>) -> Seq<Seq<char>> {
    if list.len() == 0 {
        Seq::empty()
    } else {
        seq!["== "@ + name + " =="@] + Seq::new(
            if list.len() > 10 {
                10
            } else {
                list.len()
            },
            |i: int| "  "@ + in_four(list[i].count as nat) + "  "@ + list[i].value@,
        ) + (if list.len() > 10 {
            seq!["  \u{2026}  ("@ + decimal((list.len() - 10) as nat) + " more)"@]
        } else {
            Seq::empty()
        })
    }
}

/// The lines about all counts.
pub open spec fn facet_lines(c: FacetCounts) -> Seq<Seq<char>> {
    section_lines("Manufacturer"@, c.manufacturer@) + section_lines("IP code"@, c.ip_code@)
        + section_lines("Product form"@, c.product_form@) + section_lines("Labels"@, c.labels@)
        + section_lines("Mounting place"@, c.mounting_place@) + section_lines(
        "Mounting type"@,
        c.mounting_type@,
    ) + section_lines("Has photometry"@, c.has_photometry@)
}

/// A numeral with spaces in front.
fn pad_four(n: u32) -> (r: String)
    ensures
        r@ == in_four(n as nat),
{
    let mut r: String = if n < 10 {
        owned("   ")
    } else if n < 100 {
        owned("  ")
    } else if n < 1000 {
        owned(" ")
    } else {
        return to_decimal(n as u64);
    };
    push_text(&mut r, to_decimal(n as u64).as_str());
    r
}

/// Adds the lines about the counts of a field.
fn print_section(lines: &mut Vec<String>, name: &str, list: &Vec<FacetValueCount>)
    ensures
        texts(final(lines)@) == texts(old(lines)@) + section_lines(name@, list@),
{
    let ghost before = texts(lines@);
    let ghost all = section_lines(name@, list@);
    if list.len() == 0 {
        proof {
            assert(before + all =~= before);
        }
        return;
    }
    let mut head: String = owned("== ");
    push_text(&mut head, name);
    push_text(&mut head, " ==");
    say(lines, head);
    let n: usize = if list.len() > 10 {
        10
    } else {
        list.len()
    };
    let mut i: usize = 0;
    proof {
        assert(texts(lines@) =~= before + all.take(1));
    }
    while i < n
        invariant
            i <= n <= list@.len(),
            n == (if list@.len() > 10 {
                10
            } else {
                list@.len() as int
            }),
            list@.len() > 0,
            all == section_lines(name@, list@),
            texts(lines@) == before + all.take(i + 1),
        decreases n - i,
    {
        let mut s: String = owned("  ");
        push_text(&mut s, pad_four(list[i].count).as_str());
        push_text(&mut s, "  ");
        push_text(&mut s, list[i].value.as_str());
        proof {
            assert(s@ == all[i + 1]);
            assert((before + all.take(i + 1)).push(all[i + 1]) =~= before + all.take(i + 2));
        }
        say(lines, s);
        i += 1;
    }
    if list.len() > 10 {
        let mut s: String = owned("  \u{2026}  (");
        push_text(&mut s, to_decimal((list.len() - 10) as u64).as_str());
        push_text(&mut s, " more)");
        say(lines, s);
    }
    proof {
        assert(texts(lines@) =~= before + all);
    }
}

/// Adds the lines about all counts.
pub fn print_facets(lines: &mut Vec<String>, c: &FacetCounts)
    ensures
        texts(final(lines)@) == texts(old(lines)@) + facet_lines(*c),
{
    let ghost before = texts(lines@);
    print_section(lines, "Manufacturer", &c.manufacturer);
    print_section(lines, "IP code", &c.ip_code);
    print_section(lines, "Product form", &c.product_form);
    print_section(lines, "Labels", &c.labels);
    print_section(lines, "Mounting place", &c.mounting_place);
    print_section(lines, "Mounting type", &c.mounting_type);
    print_section(lines, "Has photometry", &c.has_photometry);
    proof {
        assert(texts(lines@) =~= before + facet_lines(*c));
    }
}

/// The fields that are counted.
pub open spec fn counted_fields() -> Seq<FacetField> {
    seq![
        FacetField::Manufacturer,
        FacetField::IpCode,
        FacetField::ProductForm,
        FacetField::Labels,
        FacetField::MountingPlace,
        FacetField::MountingType,
        FacetField::HasPhotometry,
    ]
}

/// Whether `c` counts the fields over some documents.
pub open spec fn counts_hold(c: FacetCounts, docs: Seq<DocView>, f: FilterView) -> bool {
    forall|field: FacetField|
        counted_fields().contains(field) ==> facet_list(
            #[trigger] counts_of(c, field),
            docs,
            relaxed(f, field),
            field,
        )
}

/// The lines about the first `n` hits.
pub open spec fn hits_lines(
    hits: Seq<(Seq<u8>, u16)>,
    docs: Seq<DocView>,
    at: Map<Seq<u8>, int>,
    n: int,
) -> Seq<Seq<char>>
    decreases n,
{
    if n <= 0 {
        Seq::empty()
    } else {
        let front = hits_lines(hits, docs, at, n - 1);
        if at.contains_key(hits[n - 1].0) {
            front + hit_lines(docs[at[hits[n - 1].0]])
        } else {
            front
        }
    }
}

/// The lines above the hits.
pub open spec fn head_lines(a: SearchArgs, shown: nat, total: nat, docs: nat) -> Seq<Seq<char>> {
    seq![
        decimal(shown) + " hits of "@ + decimal(total) + " total (page "@ + decimal(a.page as nat)
            + ", limit "@ + decimal(a.limit as nat) + ")"@,
        "indexed "@ + decimal(docs) + " docs from "@ + a.root@,
        Seq::<char>::empty(),
    ]
}

/// The lines of an answer.
pub open spec fn answer_lines(
    a: SearchArgs,
    docs: Seq<DocView>,
    at: Map<Seq<u8>, int>,
    c: FacetCounts,
) -> Seq<Seq<char>> {
    let every = all_hits(asked_filter(a), docs);
    let hits = page_of(every, asked_page(a));
    head_lines(a, hits.len(), every.len() % 0x1_0000_0000, docs.len()) + hits_lines(
        hits,
        docs,
        at,
        hits.len() as int,
    ) + (if a.facets {
        seq![Seq::<char>::empty()] + facet_lines(c)
    } else {
        Seq::empty()
    })
}

/// Adds the lines above the hits.
fn print_head(a: &SearchArgs, shown: usize, total: u32, docs: usize) -> (lines: Vec<String>)
    ensures
        texts(lines@) == head_lines(*a, shown as nat, total as nat, docs as nat),
{
    let mut lines: Vec<String> = Vec::new();
    let mut s: String = to_decimal(shown as u64);
    push_text(&mut s, " hits of ");
    push_text(&mut s, to_decimal(total as u64).as_str());
    push_text(&mut s, " total (page ");
    push_text(&mut s, to_decimal(a.page as u64).as_str());
    push_text(&mut s, ", limit ");
    push_text(&mut s, to_decimal(a.limit as u64).as_str());
    push_text(&mut s, ")");
    lines.push(s);
    let mut t: String = owned("indexed ");
    push_text(&mut t, to_decimal(docs as u64).as_str());
    push_text(&mut t, " docs from ");
    push_text(&mut t, a.root.as_str());
    lines.push(t);
    let empty: String = String::new();
    proof {
        assert(empty@ =~= Seq::empty());
    }
    lines.push(empty);
    proof {
        assert(texts(lines@) =~= head_lines(*a, shown as nat, total as nat, docs as nat));
    }
    lines
}

/// The lines of an answer, and what of the arguments was passed over.
pub fn run(idx: &InMemoryIndex, a: &SearchArgs) -> (r: (Vec<String>, Vec<Ignored>))
    requires
        idx.well_formed(),
    ensures
        ignored_views(r.1@) == asked_ignored(*a),
        exists|c: FacetCounts|
            (a.facets ==> #[trigger] counts_hold(c, idx.corpus(), asked_filter(*a))) && texts(
                r.0@,
            ) == answer_lines(*a, idx.corpus(), idx.positions(), c),
{
    let (filter, ignored) = build_filter(a);
    let result: SearchResult = idx.search(&filter, page_asked(a));
    let ghost docs = idx.corpus();
    let ghost at = idx.positions();
    let ghost hits = hit_views(result.hits@);
    let mut lines: Vec<String> = print_head(a, result.hits.len(), result.total, idx.len());
    let ghost head = texts(lines@);
    let mut i: usize = 0;
    proof {
        assert(hits.len() == result.hits@.len());
        assert(head + hits_lines(hits, docs, at, 0) =~= head);
    }
    while i < result.hits.len()
        invariant
            i <= result.hits@.len(),
            idx.well_formed(),
            docs == idx.corpus(),
            at == idx.positions(),
            hits == hit_views(result.hits@),
            texts(lines@) == head + hits_lines(hits, docs, at, i as int),
        decreases result.hits@.len() - i,
    {
        let ghost had = texts(lines@);
        proof {
            assert(hits[i as int] == result.hits@[i as int]@);
        }
        match idx.doc(&result.hits[i].doc) {
            Some(d) => {
                print_hit(&mut lines, d);
                proof {
                    assert(had + hit_lines(d@) =~= head + hits_lines(hits, docs, at, i + 1));
                }
            },
            None => {},
        }
        i += 1;
    }
    let ghost upto = texts(lines@);
    if !a.facets {
        proof {
            let c: FacetCounts = vstd::pervasive::arbitrary();
            assert(upto + Seq::<Seq<char>>::empty() =~= upto);
            assert(texts(lines@) =~= answer_lines(*a, docs, at, c));
            let held = counts_hold(c, docs, asked_filter(*a));
            assert(a.facets ==> counts_hold(c, docs, asked_filter(*a)));
        }
        return (lines, ignored);
    }
    let mut fields: Vec<FacetField> = Vec::new();
    fields.push(FacetField::Manufacturer);
    fields.push(FacetField::IpCode);
    fields.push(FacetField::ProductForm);
    fields.push(FacetField::Labels);
    fields.push(FacetField::MountingPlace);
    fields.push(FacetField::MountingType);
    fields.push(FacetField::HasPhotometry);
    let counts: FacetCounts = idx.facets(&filter, fields.as_slice());
    let empty: String = String::new();
    proof {
        assert(fields@ =~= counted_fields());
        assert(empty@ =~= Seq::empty());
    }
    say(&mut lines, empty);
    print_facets(&mut lines, &counts);
    proof {
        assert(counts_hold(counts, docs, asked_filter(*a)));
        assert(texts(lines@) =~= answer_lines(*a, docs, at, counts));
    }
    (lines, ignored)
}

/// A hit begins with its manufacturer and product, and says that there
/// are no figures exactly where no variant has any.
pub proof fn hits_name_their_document(d: DocView)
    ensures
        hit_lines(d).len() > 0,
        hit_lines(d)[0] == "\u{2022} ["@ + d.manufacturer + "] "@ + d.product,
        (forall|i: int| 0 <= i < d.variants.len() ==> (#[trigger] d.variants[i]).photometry is None)
            ==> hit_lines(d).last() == "    photometry: missing"@,
        d.keywords.len() > 0 ==> hit_lines(d)[1] == "    keywords: "@ + comma_list(
            sorted_texts(d.keywords),
        ),
        d.ip_code matches Some(id) ==> value_text(Axis::IpCode, id) is Some ==> hit_lines(
            d,
        )[if d.keywords.len() > 0 {
            2
        } else {
            1
        }] == "    ip_code: "@ + value_text(Axis::IpCode, id)->0,
        d.keywords.len() == 0 && d.ip_code is None && d.variants.len() > 0
            && d.variants[0].photometry is Some ==> hit_lines(d).len() == 1,
{
}

/// Texts are set apart by commas.
pub proof fn commas_set_texts_apart(a: Seq<char>, s: Seq<Seq<char>>)
    ensures
        comma_list(Seq::empty()).len() == 0,
        comma_list(seq![a]) == a,
        s.len() > 0 ==> comma_list(s.push(a)) == comma_list(s) + ", "@ + a,
{
    if s.len() > 0 {
        assert(s.push(a).drop_last() =~= s);
    }
}

/// A number takes up four places, with spaces before it, where it has no
/// more figures than that.
pub proof fn numbers_take_up_four_places(n: nat)
    ensures
        n < 10_000 ==> in_four(n).len() == 4,
        crate::text::has_suffix(in_four(n), decimal(n)),
{
    crate::text::decimal_round_trip(n);
    crate::text::decimal_round_trip(n / 10);
    crate::text::decimal_round_trip(n / 100);
    crate::text::decimal_round_trip(n / 1000);
    assert(n / 10 / 10 == n / 100 && n / 100 / 10 == n / 1000);
    reveal_strlit("   ");
    reveal_strlit("  ");
    reveal_strlit(" ");
    crate::text::parts_are_found("   "@, decimal(n), Seq::empty());
    crate::text::parts_are_found("  "@, decimal(n), Seq::empty());
    crate::text::parts_are_found(" "@, decimal(n), Seq::empty());
    crate::text::parts_are_found(Seq::empty(), decimal(n), Seq::empty());
    assert(Seq::<char>::empty() + decimal(n) =~= decimal(n));
}

/// A section has its heading and the first ten values with their counts,
/// and says how many more there are.
pub proof fn sections_show_ten_values(name: Seq<char>, list: Seq<FacetValueCount>, i: int)
    requires
        0 <= i < list.len(),
    ensures
        section_lines(name, Seq::empty()).len() == 0,
        section_lines(name, list)[0] == "== "@ + name + " =="@,
        list.len() <= 10 ==> section_lines(name, list).len() == list.len() + 1,
        list.len() > 10 ==> section_lines(name, list).len() == 12 && section_lines(name, list)[11]
            == "  \u{2026}  ("@ + decimal((list.len() - 10) as nat) + " more)"@,
        i < 10 ==> section_lines(name, list)[i + 1] == "  "@ + in_four(list[i].count as nat) + "  "@
            + list[i].value@,
{
}

/// The sections come in the order of the fields that are counted, each
/// with the counts of its own field.
pub proof fn sections_show_their_fields(c: FacetCounts)
    ensures
        facet_lines(c) == section_lines("Manufacturer"@, counts_of(c, FacetField::Manufacturer))
            + section_lines("IP code"@, counts_of(c, FacetField::IpCode)) + section_lines(
            "Product form"@,
            counts_of(c, FacetField::ProductForm),
        ) + section_lines("Labels"@, counts_of(c, FacetField::Labels)) + section_lines(
            "Mounting place"@,
            counts_of(c, FacetField::MountingPlace),
        ) + section_lines("Mounting type"@, counts_of(c, FacetField::MountingType))
            + section_lines("Has photometry"@, counts_of(c, FacetField::HasPhotometry)),
        counted_fields().len() == 7,
        counted_fields().contains(FacetField::Manufacturer),
        counted_fields().contains(FacetField::IpCode),
        counted_fields().contains(FacetField::ProductForm),
        counted_fields().contains(FacetField::Labels),
        counted_fields().contains(FacetField::MountingPlace),
        counted_fields().contains(FacetField::MountingType),
        counted_fields().contains(FacetField::HasPhotometry),
{
    let s = counted_fields();
    assert(s[0] == FacetField::Manufacturer && s[1] == FacetField::IpCode && s[2]
        == FacetField::ProductForm && s[3] == FacetField::Labels && s[4]
        == FacetField::MountingPlace && s[5] == FacetField::MountingType && s[6]
        == FacetField::HasPhotometry);
}

/// A setting counts without the white space around it, and a blank one
/// counts as none.
pub proof fn blank_settings_count_as_none(s: Seq<char>)
    ensures
        trim(s).len() == 0 ==> setting(Some(s)) is None,
        trim(s).len() > 0 ==> setting(Some(s)) == Some(trim(s)),
        setting(None) is None,
        GREATEST_KEY == 0x7f80_0000 - 1,
{
}

/// An answer begins with the numbers of the hits shown and of all hits,
/// and then names the hits of the page.
pub proof fn answers_begin_with_their_numbers(
    a: SearchArgs,
    docs: Seq<DocView>,
    at: Map<Seq<u8>, int>,
    c: FacetCounts,
)
    requires
        all_hits(asked_filter(a), docs).len() < 0x1_0000_0000,
    ensures
        ({
            let every = all_hits(asked_filter(a), docs);
            let hits = page_of(every, asked_page(a));
            let lines = answer_lines(a, docs, at, c);
            &&& lines[0] == decimal(hits.len()) + " hits of "@ + decimal(every.len())
                + " total (page "@ + decimal(a.page as nat) + ", limit "@ + decimal(a.limit as nat)
                + ")"@
            &&& lines[1] == "indexed "@ + decimal(docs.len()) + " docs from "@ + a.root@
            &&& lines[2].len() == 0
            &&& hits.len() > 0 && at.contains_key(hits[0].0) ==> lines[3] == "\u{2022} ["@
                + docs[at[hits[0].0]].manufacturer + "] "@ + docs[at[hits[0].0]].product
            &&& !a.facets ==> lines.len() == 3 + hits_lines(hits, docs, at, hits.len() as int).len()
        }),
{
    let every = all_hits(asked_filter(a), docs);
    let hits = page_of(every, asked_page(a));
    if hits.len() > 0 && at.contains_key(hits[0].0) {
        first_hit_stands_first(hits, docs, at, hits.len() as int);
    }
}

proof fn first_hit_stands_first(
    hits: Seq<(Seq<u8>, u16)>,
    docs: Seq<DocView>,
    at: Map<Seq<u8>, int>,
    n: int,
)
    requires
        0 < n <= hits.len(),
        at.contains_key(hits[0].0),
    ensures
        hits_lines(hits, docs, at, n).len() > 0,
        hits_lines(hits, docs, at, n)[0] == hit_lines(docs[at[hits[0].0]])[0],
    decreases n,
{
    hits_name_their_document(docs[at[hits[0].0]]);
    if n > 1 {
        first_hit_stands_first(hits, docs, at, n - 1);
    } else {
        assert(hits_lines(hits, docs, at, 0).len() == 0);
    }
}

} // verus!
