//! Facet values suggested for what was typed into the search bar.

use crate::doc::{doc_views, DocView, LuminaireDoc};
use crate::facets::{count_one_facet, facet_count, facet_list, listed_before, relaxed, FacetField, FacetValueCount};
use crate::filter::{open_filter, Filter};
use crate::selection::{as_ints, best, best_skips, best_takes, strict_order};
use crate::text::{
    begins_with, chars_of, has_infix, has_prefix, holds_text, lowercase, same_text, text_before,
    text_lt, text_lt_asymmetric, text_lt_total, text_lt_transitive, trim, trimmed, unicode_lower,
};
use vstd::prelude::*;

verus! {

/// A facet value on offer, with the number of documents that have it.
#[derive(PartialEq, Eq, Debug)]
pub enum FacetSuggestion {
    /// A manufacturer.
    Manufacturer {
        /// The value, as displayed.
        value: String,
        /// How many documents have it.
        count: u32,
    },
    /// An IP code.
    IpCode {
        /// The value, as displayed.
        value: String,
        /// How many documents have it.
        count: u32,
    },
    /// A safety class.
    SafetyClass {
        /// The value, as displayed.
        value: String,
        /// How many documents have it.
        count: u32,
    },
    /// An IK rating.
    IkRating {
        /// The value, as displayed.
        value: String,
        /// How many documents have it.
        count: u32,
    },
    /// A product form.
    ProductForm {
        /// The value, as displayed.
        value: String,
        /// How many documents have it.
        count: u32,
    },
    /// An adjustability.
    Adjustability {
        /// The value, as displayed.
        value: String,
        /// How many documents have it.
        count: u32,
    },
    /// A label.
    Label {
        /// The value, as displayed.
        value: String,
        /// How many documents have it.
        count: u32,
    },
    /// An application.
    Application {
        /// The value, as displayed.
        value: String,
        /// How many documents have it.
        count: u32,
    },
    /// A lamp type.
    LampType {
        /// The value, as displayed.
        value: String,
        /// How many documents have it.
        count: u32,
    },
    /// A control gear interface.
    ControlGearInterface {
        /// The value, as displayed.
        value: String,
        /// How many documents have it.
        count: u32,
    },
    /// An emergency lighting type.
    EmergencyLightingType {
        /// The value, as displayed.
        value: String,
        /// How many documents have it.
        count: u32,
    },
}

/// The field that a suggestion is about.
pub open spec fn field_of(s: FacetSuggestion) -> FacetField {
    match s {
        FacetSuggestion::Manufacturer { value, count } => FacetField::Manufacturer,
        FacetSuggestion::IpCode { value, count } => FacetField::IpCode,
        FacetSuggestion::SafetyClass { value, count } => FacetField::SafetyClass,
        FacetSuggestion::IkRating { value, count } => FacetField::IkRating,
        FacetSuggestion::ProductForm { value, count } => FacetField::ProductForm,
        FacetSuggestion::Adjustability { value, count } => FacetField::Adjustability,
        FacetSuggestion::Label { value, count } => FacetField::Labels,
        FacetSuggestion::Application { value, count } => FacetField::Applications,
        FacetSuggestion::LampType { value, count } => FacetField::LampType,
        FacetSuggestion::ControlGearInterface { value, count } => FacetField::ControlGearInterface,
        FacetSuggestion::EmergencyLightingType { value, count } => FacetField::EmergencyLightingType,
    }
}

/// The displayed value of a suggestion.
pub open spec fn shown(s: FacetSuggestion) -> Seq<char> {
    match s {
        FacetSuggestion::Manufacturer { value, count } => value@,
        FacetSuggestion::IpCode { value, count } => value@,
        FacetSuggestion::SafetyClass { value, count } => value@,
        FacetSuggestion::IkRating { value, count } => value@,
        FacetSuggestion::ProductForm { value, count } => value@,
        FacetSuggestion::Adjustability { value, count } => value@,
        FacetSuggestion::Label { value, count } => value@,
        FacetSuggestion::Application { value, count } => value@,
        FacetSuggestion::LampType { value, count } => value@,
        FacetSuggestion::ControlGearInterface { value, count } => value@,
        FacetSuggestion::EmergencyLightingType { value, count } => value@,
    }
}

/// The document count of a suggestion.
pub open spec fn counted(s: FacetSuggestion) -> u32 {
    match s {
        FacetSuggestion::Manufacturer { value, count } => count,
        FacetSuggestion::IpCode { value, count } => count,
        FacetSuggestion::SafetyClass { value, count } => count,
        FacetSuggestion::IkRating { value, count } => count,
        FacetSuggestion::ProductForm { value, count } => count,
        FacetSuggestion::Adjustability { value, count } => count,
        FacetSuggestion::Label { value, count } => count,
        FacetSuggestion::Application { value, count } => count,
        FacetSuggestion::LampType { value, count } => count,
        FacetSuggestion::ControlGearInterface { value, count } => count,
        FacetSuggestion::EmergencyLightingType { value, count } => count,
    }
}

impl FacetSuggestion {
    /// How many documents have the value.
    pub fn count(&self) -> (r: u32)
        ensures
            r == counted(*self),
    {
        match self {
            FacetSuggestion::Manufacturer { value: _, count } => *count,
            FacetSuggestion::IpCode { value: _, count } => *count,
            FacetSuggestion::SafetyClass { value: _, count } => *count,
            FacetSuggestion::IkRating { value: _, count } => *count,
            FacetSuggestion::ProductForm { value: _, count } => *count,
            FacetSuggestion::Adjustability { value: _, count } => *count,
            FacetSuggestion::Label { value: _, count } => *count,
            FacetSuggestion::Application { value: _, count } => *count,
            FacetSuggestion::LampType { value: _, count } => *count,
            FacetSuggestion::ControlGearInterface { value: _, count } => *count,
            FacetSuggestion::EmergencyLightingType { value: _, count } => *count,
        }
    }

    /// The displayed value.
    pub fn value(&self) -> (r: &str)
        ensures
            r@ == shown(*self),
    {
        match self {
            FacetSuggestion::Manufacturer { value, count: _ } => value.as_str(),
            FacetSuggestion::IpCode { value, count: _ } => value.as_str(),
            FacetSuggestion::SafetyClass { value, count: _ } => value.as_str(),
            FacetSuggestion::IkRating { value, count: _ } => value.as_str(),
            FacetSuggestion::ProductForm { value, count: _ } => value.as_str(),
            FacetSuggestion::Adjustability { value, count: _ } => value.as_str(),
            FacetSuggestion::Label { value, count: _ } => value.as_str(),
            FacetSuggestion::Application { value, count: _ } => value.as_str(),
            FacetSuggestion::LampType { value, count: _ } => value.as_str(),
            FacetSuggestion::ControlGearInterface { value, count: _ } => value.as_str(),
            FacetSuggestion::EmergencyLightingType { value, count: _ } => value.as_str(),
        }
    }

    /// A suggestion of its own with the same content.
    pub fn copy(&self) -> (r: FacetSuggestion)
        ensures
            r == *self,
    {
        match self {
            FacetSuggestion::Manufacturer { value, count } => FacetSuggestion::Manufacturer {
                value: value.clone(),
                count: *count,
            },
            FacetSuggestion::IpCode { value, count } => FacetSuggestion::IpCode {
                value: value.clone(),
                count: *count,
            },
            FacetSuggestion::SafetyClass { value, count } => FacetSuggestion::SafetyClass {
                value: value.clone(),
                count: *count,
            },
            FacetSuggestion::IkRating { value, count } => FacetSuggestion::IkRating {
                value: value.clone(),
                count: *count,
            },
            FacetSuggestion::ProductForm { value, count } => FacetSuggestion::ProductForm {
                value: value.clone(),
                count: *count,
            },
            FacetSuggestion::Adjustability { value, count } => FacetSuggestion::Adjustability {
                value: value.clone(),
                count: *count,
            },
            FacetSuggestion::Label { value, count } => FacetSuggestion::Label {
                value: value.clone(),
                count: *count,
            },
            FacetSuggestion::Application { value, count } => FacetSuggestion::Application {
                value: value.clone(),
                count: *count,
            },
            FacetSuggestion::LampType { value, count } => FacetSuggestion::LampType {
                value: value.clone(),
                count: *count,
            },
            FacetSuggestion::ControlGearInterface { value, count } => FacetSuggestion::ControlGearInterface {
                value: value.clone(),
                count: *count,
            },
            FacetSuggestion::EmergencyLightingType { value, count } => FacetSuggestion::EmergencyLightingType {
                value: value.clone(),
                count: *count,
            },
        }
    }

    /// The suggestion of a value of a field; `None` for the fields that
    /// are not suggested.
    pub fn of_field(field: FacetField, value: String, count: u32) -> (r: Option<FacetSuggestion>)
        ensures
            r is Some <==> 0 <= rank_of(field),
            r matches Some(s) ==> field_of(s) == field && shown(s) == value@ && counted(s) == count,
    {
        match field {
            FacetField::Manufacturer => Some(FacetSuggestion::Manufacturer { value, count }),
            FacetField::IpCode => Some(FacetSuggestion::IpCode { value, count }),
            FacetField::SafetyClass => Some(FacetSuggestion::SafetyClass { value, count }),
            FacetField::IkRating => Some(FacetSuggestion::IkRating { value, count }),
            FacetField::ProductForm => Some(FacetSuggestion::ProductForm { value, count }),
            FacetField::Adjustability => Some(FacetSuggestion::Adjustability { value, count }),
            FacetField::Labels => Some(FacetSuggestion::Label { value, count }),
            FacetField::Applications => Some(FacetSuggestion::Application { value, count }),
            FacetField::LampType => Some(FacetSuggestion::LampType { value, count }),
            FacetField::ControlGearInterface => Some(FacetSuggestion::ControlGearInterface { value, count }),
            FacetField::EmergencyLightingType => Some(FacetSuggestion::EmergencyLightingType { value, count }),
            _ => None,
        }
    }
}

/// The place of a field among those that are suggested; negative for
/// the others.
pub open spec fn rank_of(field: FacetField) -> int {
    match field {
        FacetField::Manufacturer => 0,
        FacetField::IpCode => 1,
        FacetField::SafetyClass => 2,
        FacetField::IkRating => 3,
        FacetField::ProductForm => 4,
        FacetField::Adjustability => 5,
        FacetField::Labels => 6,
        FacetField::Applications => 7,
        FacetField::LampType => 8,
        FacetField::ControlGearInterface => 9,
        FacetField::EmergencyLightingType => 10,
        _ => -1,
    }
}

/// The fields that are suggested, in their order.
fn field_at(rank: usize) -> (r: FacetField)
    requires
        rank < 11,
    ensures
        rank_of(r) == rank,
{
    if rank == 0 {
        FacetField::Manufacturer
    } else if rank == 1 {
        FacetField::IpCode
    } else if rank == 2 {
        FacetField::SafetyClass
    } else if rank == 3 {
        FacetField::IkRating
    } else if rank == 4 {
        FacetField::ProductForm
    } else if rank == 5 {
        FacetField::Adjustability
    } else if rank == 6 {
        FacetField::Labels
    } else if rank == 7 {
        FacetField::Applications
    } else if rank == 8 {
        FacetField::LampType
    } else if rank == 9 {
        FacetField::ControlGearInterface
    } else {
        FacetField::EmergencyLightingType
    }
}

/// Whether `a` stands before `b` in the table: by field, then by
/// descending count, then by value.
pub open spec fn tabled_before(a: FacetSuggestion, b: FacetSuggestion) -> bool {
    ||| rank_of(field_of(a)) < rank_of(field_of(b))
    ||| field_of(a) == field_of(b) && (counted(a) > counted(b) || (counted(a) == counted(b)
        && text_lt(shown(a), shown(b))))
}

/// Whether an entry of the table is about a value of a field.
pub open spec fn is_about(s: FacetSuggestion, field: FacetField, x: Seq<char>) -> bool {
    field_of(s) == field && shown(s) == x
}

/// Whether every entry holds the number of documents that have its
/// value.
pub open spec fn table_sound(t: Seq<FacetSuggestion>, docs: Seq<DocView>) -> bool {
    forall|i: int|
        0 <= i < t.len() ==> counted(#[trigger] t[i]) > 0 && counted(t[i]) == facet_count(
            docs,
            open_filter(),
            field_of(t[i]),
            shown(t[i]),
        )
}

/// Whether the fields of a rank below `n` have an entry for every value
/// that some document has.
pub open spec fn table_complete(t: Seq<FacetSuggestion>, docs: Seq<DocView>, n: int) -> bool {
    forall|field: FacetField, x: Seq<char>|
        0 <= rank_of(field) < n && #[trigger] facet_count(docs, open_filter(), field, x) > 0
            ==> exists|i: int| 0 <= i < t.len() && is_about(#[trigger] t[i], field, x)
}

/// Whether the entries stand in their order.
pub open spec fn table_ordered(t: Seq<FacetSuggestion>) -> bool {
    forall|i: int, j: int| 0 <= i < j < t.len() ==> tabled_before(#[trigger] t[i], #[trigger] t[j])
}

/// Whether `t` is the table of all suggestions over the documents.
pub open spec fn is_suggest_table(t: Seq<FacetSuggestion>, docs: Seq<DocView>) -> bool {
    table_sound(t, docs) && table_complete(t, docs, 11) && table_ordered(t)
}

/// Whether an entry is on offer for the lowered text `p`: it holds `p`.
pub open spec fn offer_wanted(t: Seq<FacetSuggestion>, p: Seq<char>) -> spec_fn(int) -> bool {
    |i: int| has_infix(unicode_lower(shown(t[i])), p)
}

/// Whether an entry begins with the lowered text `p`.
pub open spec fn offer_leads(t: Seq<FacetSuggestion>, p: Seq<char>, i: int) -> bool {
    has_prefix(unicode_lower(shown(t[i])), p)
}

/// The order of offers: what begins with the text before what only
/// holds it, then by descending count, then by value, then by place in
/// the table.
pub open spec fn offer_order(t: Seq<FacetSuggestion>, p: Seq<char>) -> spec_fn(int, int) -> bool {
    |i: int, j: int| offered_before(t, p, i, j)
}

/// Whether the `i`th entry is offered before the `j`th.
pub open spec fn offered_before(t: Seq<FacetSuggestion>, p: Seq<char>, i: int, j: int) -> bool {
    if offer_leads(t, p, i) != offer_leads(t, p, j) {
        offer_leads(t, p, i)
    } else if counted(t[i]) != counted(t[j]) {
        counted(t[i]) > counted(t[j])
    } else if shown(t[i]) != shown(t[j]) {
        text_lt(shown(t[i]), shown(t[j]))
    } else {
        i < j
    }
}

/// Whether `out` are the suggestions for a typed text: none for fewer
/// than two characters, else the first `limit` offers.
pub open spec fn suggests_facets(
    out: Seq<FacetSuggestion>,
    t: Seq<FacetSuggestion>,
    typed: Seq<char>,
    limit: int,
) -> bool {
    let p = unicode_lower(trim(typed));
    if p.len() < 2 {
        out.len() == 0
    } else {
        exists|picks: Seq<int>| #[trigger]
            best(picks, t.len() as int, offer_wanted(t, p), offer_order(t, p), limit) && out.len()
                == picks.len() && forall|k: int| 0 <= k < out.len() ==> #[trigger] out[k]
                == t[picks[k]]
    }
}

/// The order of offers is strict.
pub proof fn offer_order_is_strict(t: Seq<FacetSuggestion>, p: Seq<char>, n: int)
    requires
        0 <= n <= t.len(),
    ensures
        strict_order(offer_order(t, p), n),
{
    let before = offer_order(t, p);
    assert forall|a: int, b: int, c: int|
        0 <= a < n && 0 <= b < n && 0 <= c < n && #[trigger] before(a, b) && #[trigger] before(
            b,
            c,
        ) implies before(a, c) by {
        assert(offered_before(t, p, a, b));
        assert(offered_before(t, p, b, c));
        if text_lt(shown(t[a]), shown(t[b])) && text_lt(shown(t[b]), shown(t[c])) {
            text_lt_transitive(shown(t[a]), shown(t[b]), shown(t[c]));
            text_lt_asymmetric(shown(t[a]), shown(t[c]));
        }
        assert(offered_before(t, p, a, c));
    }
}

/// A suggestion holds what was typed, in letters of any case and without
/// the white space around it. Fewer than two characters suggest nothing,
/// and there are never more suggestions than asked for. What begins with
/// the text comes before what only holds it, then greater counts come
/// before smaller ones, and of equal counts the value that comes first in
/// the order of texts.
pub proof fn suggestions_hold_what_was_typed(
    out: Seq<FacetSuggestion>,
    t: Seq<FacetSuggestion>,
    typed: Seq<char>,
    limit: int,
)
    requires
        suggests_facets(out, t, typed, limit),
        limit >= 0,
    ensures
        out.len() <= limit,
        unicode_lower(trim(typed)).len() < 2 ==> out.len() == 0,
        forall|k: int|
            0 <= k < out.len() ==> has_infix(
                unicode_lower(shown(#[trigger] out[k])),
                unicode_lower(trim(typed)),
            ) && t.contains(out[k]),
        forall|a: int, b: int|
            0 <= a < b < out.len() ==> {
                let p = unicode_lower(trim(typed));
                let x = #[trigger] out[a];
                let y = #[trigger] out[b];
                &&& has_prefix(unicode_lower(shown(y)), p) ==> has_prefix(unicode_lower(shown(x)), p)
                &&& has_prefix(unicode_lower(shown(x)), p) == has_prefix(unicode_lower(shown(y)), p)
                    ==> counted(x) >= counted(y)
                &&& has_prefix(unicode_lower(shown(x)), p) == has_prefix(unicode_lower(shown(y)), p)
                    && counted(x) == counted(y) ==> shown(x) == shown(y) || text_lt(
                    shown(x),
                    shown(y),
                )
            },
{
    let p = unicode_lower(trim(typed));
    if p.len() >= 2 {
        let picks = choose|picks: Seq<int>| #[trigger]
            best(picks, t.len() as int, offer_wanted(t, p), offer_order(t, p), limit) && out.len()
                == picks.len() && forall|k: int| 0 <= k < out.len() ==> #[trigger] out[k]
                == t[picks[k]];
        assert forall|k: int| 0 <= k < out.len() implies has_infix(
            unicode_lower(shown(#[trigger] out[k])),
            p,
        ) && t.contains(out[k]) by {
            assert(offer_wanted(t, p)(picks[k]));
            assert(out[k] == t[picks[k]]);
        }
        assert forall|a: int, b: int| 0 <= a < b < out.len() implies {
            let x = #[trigger] out[a];
            let y = #[trigger] out[b];
            &&& has_prefix(unicode_lower(shown(y)), p) ==> has_prefix(unicode_lower(shown(x)), p)
            &&& has_prefix(unicode_lower(shown(x)), p) == has_prefix(unicode_lower(shown(y)), p)
                ==> counted(x) >= counted(y)
            &&& has_prefix(unicode_lower(shown(x)), p) == has_prefix(unicode_lower(shown(y)), p)
                && counted(x) == counted(y) ==> shown(x) == shown(y) || text_lt(shown(x), shown(y))
        } by {
            assert(offer_order(t, p)(picks[a], picks[b]));
            assert(offered_before(t, p, picks[a], picks[b]));
            assert(out[a] == t[picks[a]] && out[b] == t[picks[b]]);
        }
    }
}

/// Where there is room for more, every value of the documents that holds
/// what was typed is suggested, with the number of documents that have
/// it.
pub proof fn no_value_is_left_out_where_there_is_room(
    out: Seq<FacetSuggestion>,
    t: Seq<FacetSuggestion>,
    docs: Seq<DocView>,
    typed: Seq<char>,
    limit: int,
    field: FacetField,
    x: Seq<char>,
)
    requires
        is_suggest_table(t, docs),
        suggests_facets(out, t, typed, limit),
        out.len() < limit,
        unicode_lower(trim(typed)).len() >= 2,
        has_infix(unicode_lower(x), unicode_lower(trim(typed))),
        facet_count(docs, open_filter(), field, x) > 0,
        suggested(field),
    ensures
        exists|k: int|
            0 <= k < out.len() && shown(#[trigger] out[k]) == x && field_of(out[k]) == field
                && counted(out[k]) == facet_count(docs, open_filter(), field, x),
{
    let p = unicode_lower(trim(typed));
    let picks = choose|picks: Seq<int>| #[trigger]
        best(picks, t.len() as int, offer_wanted(t, p), offer_order(t, p), limit) && out.len()
            == picks.len() && forall|k: int| 0 <= k < out.len() ==> #[trigger] out[k] == t[picks[k]];
    let i = choose|i: int| 0 <= i < t.len() && is_about(#[trigger] t[i], field, x);
    assert(offer_wanted(t, p)(i));
    assert(picks.contains(i));
    let k = choose|k: int| 0 <= k < picks.len() && picks[k] == i;
    assert(out[k] == t[i]);
}

/// Whether the values of a field are suggested: all but those of
/// mountings, light distributions and presences.
pub open spec fn suggested(field: FacetField) -> bool {
    match field {
        FacetField::MountingPlace => false,
        FacetField::MountingType => false,
        FacetField::LightDistribution => false,
        FacetField::HasPhotometry => false,
        FacetField::Has3d => false,
        FacetField::HasEmergencyLighting => false,
        _ => true,
    }
}

/// The table of all suggestions over the documents.
pub fn build_table(docs: &Vec<LuminaireDoc>) -> (t: Vec<FacetSuggestion>)
    requires
        docs@.len() <= u32::MAX,
    ensures
        is_suggest_table(t@, doc_views(docs@)),
{
    let ghost views = doc_views(docs@);
    let open: Filter = Filter::default();
    let mut t: Vec<FacetSuggestion> = Vec::new();
    let mut rank: usize = 0;
    while rank < 11
        invariant
            rank <= 11,
            docs@.len() <= u32::MAX,
            views == doc_views(docs@),
            open@ == open_filter(),
            table_sound(t@, views),
            table_complete(t@, views, rank as int),
            table_ordered(t@),
            forall|i: int| 0 <= i < t@.len() ==> rank_of(field_of(#[trigger] t@[i])) < rank,
        decreases 11 - rank,
    {
        let field: FacetField = field_at(rank);
        let list: Vec<FacetValueCount> = count_one_facet(docs, &open, field);
        let ghost start = t@;
        proof {
            assert(relaxed(open_filter(), field) == open_filter());
        }
        let mut k: usize = 0;
        while k < list.len()
            invariant
                rank < 11,
                rank_of(field) == rank,
                k <= list@.len(),
                views == doc_views(docs@),
                facet_list(list@, views, open_filter(), field),
                table_sound(t@, views),
                table_ordered(t@),
                start.len() + k == t@.len(),
                forall|i: int| 0 <= i < start.len() ==> #[trigger] t@[i] == start[i],
                forall|i: int|
                    0 <= i < start.len() ==> rank_of(field_of(#[trigger] start[i])) < rank,
                forall|i: int|
                    0 <= i < k ==> is_about(t@[start.len() + i], field, (#[trigger] list@[i]).value@)
                        && counted(t@[start.len() + i]) == list@[i].count,
            decreases list@.len() - k,
        {
            let entry: &FacetValueCount = &list[k];
            let made: Option<FacetSuggestion> = FacetSuggestion::of_field(
                field,
                entry.value.clone(),
                entry.count,
            );
            let s: FacetSuggestion = match made {
                Some(s) => s,
                None => return t,
            };
            let ghost before = t@;
            proof {
                assert forall|i: int| 0 <= i < before.len() implies tabled_before(
                    #[trigger] before[i],
                    s,
                ) by {
                    if i < start.len() {
                        assert(before[i] == start[i]);
                    } else {
                        let m = i - start.len();
                        assert(listed_before(list@[m], list@[k as int]));
                    }
                }
            }
            t.push(s);
            proof {
                assert forall|i: int, j: int| 0 <= i < j < t@.len() implies tabled_before(
                    #[trigger] t@[i],
                    #[trigger] t@[j],
                ) by {
                    if j < before.len() {
                        assert(tabled_before(before[i], before[j]));
                    } else {
                        assert(tabled_before(before[i], s));
                    }
                }
                assert forall|i: int| 0 <= i < t@.len() implies counted(#[trigger] t@[i]) > 0
                    && counted(t@[i]) == facet_count(
                    views,
                    open_filter(),
                    field_of(t@[i]),
                    shown(t@[i]),
                ) by {
                    if i < before.len() {
                        assert(t@[i] == before[i]);
                    }
                }
                assert forall|i: int| 0 <= i < k + 1 implies is_about(
                    t@[start.len() + i],
                    field,
                    (#[trigger] list@[i]).value@,
                ) && counted(t@[start.len() + i]) == list@[i].count by {
                    if i < k {
                        assert(t@[start.len() + i] == before[start.len() + i]);
                    }
                }
            }
            k += 1;
        }
        proof {
            assert forall|g: FacetField, x: Seq<char>|
                0 <= rank_of(g) < rank + 1 && #[trigger] facet_count(views, open_filter(), g, x)
                    > 0 implies exists|i: int| 0 <= i < t@.len() && is_about(#[trigger] t@[i], g, x) by {
                if rank_of(g) < rank {
                    let i = choose|i: int| 0 <= i < start.len() && is_about(#[trigger] start[i], g, x);
                    assert(t@[i] == start[i]);
                } else {
                    assert(g == field);
                    let i = choose|i: int| 0 <= i < list@.len() && (#[trigger] list@[i]).value@ == x;
                    assert(is_about(t@[start.len() + i], g, x));
                }
            }
            assert forall|i: int| 0 <= i < t@.len() implies rank_of(field_of(#[trigger] t@[i]))
                < rank + 1 by {
                if i < start.len() {
                    assert(t@[i] == start[i]);
                } else {
                    let m = i - start.len();
                    assert(is_about(t@[start.len() + m], field, list@[m].value@));
                }
            }
        }
        rank += 1;
    }
    t
}

/// Whether the lowered values of a table stand beside it.
pub open spec fn are_lowered(lower: Seq<String>, t: Seq<FacetSuggestion>) -> bool {
    &&& lower.len() == t.len()
    &&& forall|i: int| 0 <= i < t.len() ==> (#[trigger] lower[i])@ == unicode_lower(shown(t[i]))
}

/// The lowered values of a table.
pub fn lower_values(t: &Vec<FacetSuggestion>) -> (r: Vec<String>)
    ensures
        are_lowered(r@, t@),
{
    let mut r: Vec<String> = Vec::new();
    let mut i: usize = 0;
    while i < t.len()
        invariant
            i <= t@.len(),
            r@.len() == i,
            forall|j: int| 0 <= j < i ==> (#[trigger] r@[j])@ == unicode_lower(shown(t@[j])),
        decreases t@.len() - i,
    {
        r.push(lowercase(t[i].value()));
        i += 1;
    }
    r
}

/// Whether the `i`th entry is offered before the `j`th.
fn offers_before(t: &Vec<FacetSuggestion>, lower: &Vec<String>, p: &str, i: usize, j: usize) -> (r:
    bool)
    requires
        i < t@.len(),
        j < t@.len(),
        are_lowered(lower@, t@),
    ensures
        r == offered_before(t@, p@, i as int, j as int),
{
    let a: bool = begins_with(lower[i].as_str(), p);
    let b: bool = begins_with(lower[j].as_str(), p);
    if a != b {
        return a;
    }
    let m: u32 = t[i].count();
    let n: u32 = t[j].count();
    if m != n {
        return m > n;
    }
    if !same_text(t[i].value(), t[j].value()) {
        return text_before(t[i].value(), t[j].value());
    }
    i < j
}

/// Of two entries one is offered before the other.
proof fn offered_total(t: Seq<FacetSuggestion>, p: Seq<char>, i: int, j: int)
    requires
        i != j,
    ensures
        offered_before(t, p, i, j) || offered_before(t, p, j, i),
{
    text_lt_total(shown(t[i]), shown(t[j]));
}

/// The first `limit` facet values that hold what was typed. None for
/// fewer than two characters.
pub fn suggest(
    t: &Vec<FacetSuggestion>,
    lower: &Vec<String>,
    typed: &str,
    limit: usize,
) -> (out: Vec<FacetSuggestion>)
    requires
        are_lowered(lower@, t@),
    ensures
        suggests_facets(out@, t@, typed@, limit as int),
{
    let p: String = lowercase(trimmed(typed).as_str());
    let mut out: Vec<FacetSuggestion> = Vec::new();
    if chars_of(p.as_str()).len() < 2 {
        return out;
    }
    let ghost wanted = offer_wanted(t@, p@);
    let ghost before = offer_order(t@, p@);
    if limit == 0 {
        proof {
            assert(best(Seq::empty(), t@.len() as int, wanted, before, 0));
        }
        return out;
    }
    let mut picks: Vec<usize> = Vec::new();
    proof {
        assert(as_ints(picks@) =~= Seq::empty());
    }
    let mut i: usize = 0;
    while i < t.len()
        invariant
            i <= t@.len(),
            limit >= 1,
            are_lowered(lower@, t@),
            wanted == offer_wanted(t@, p@),
            before == offer_order(t@, p@),
            best(as_ints(picks@), i as int, wanted, before, limit as int),
        decreases t@.len() - i,
    {
        if holds_text(lower[i].as_str(), p.as_str()) {
            let mut at: usize = 0;
            proof {
                assert forall|a: int| 0 <= a < picks@.len() implies #[trigger] picks@[a] < i by {
                    assert(as_ints(picks@)[a] == picks@[a]);
                }
            }
            while at < picks.len() && offers_before(t, lower, p.as_str(), picks[at], i)
                invariant
                    i < t@.len(),
                    at <= picks@.len(),
                    are_lowered(lower@, t@),
                    before == offer_order(t@, p@),
                    forall|a: int| 0 <= a < picks@.len() ==> #[trigger] picks@[a] < i,
                    forall|a: int| 0 <= a < at ==> before(#[trigger] as_ints(picks@)[a], i as int),
                decreases picks@.len() - at,
            {
                proof {
                    assert(as_ints(picks@)[at as int] == picks@[at as int]);
                }
                at += 1;
            }
            let ghost held = as_ints(picks@);
            proof {
                offer_order_is_strict(t@, p@, i + 1);
                assert forall|a: int| at <= a < held.len() implies before(
                    i as int,
                    #[trigger] held[a],
                ) by {
                    let q = held[at as int];
                    assert(q == picks@[at as int] && q < i);
                    offered_total(t@, p@, q, i as int);
                    assert(before(i as int, q));
                    if a > at {
                        assert(before(held[at as int], held[a]));
                        assert(held[a] < i);
                    }
                }
                best_takes(held, i as int, wanted, before, limit as int, at as int);
            }
            if picks.len() < limit {
                picks.insert(at, i);
                proof {
                    assert(as_ints(picks@) =~= held.insert(at as int, i as int));
                }
            } else {
                picks.insert(at, i);
                let _ = picks.pop();
                proof {
                    assert(as_ints(picks@) =~= held.insert(at as int, i as int).drop_last());
                }
            }
        } else {
            proof {
                best_skips(as_ints(picks@), i as int, wanted, before, limit as int);
            }
        }
        i += 1;
    }
    let mut k: usize = 0;
    proof {
        assert forall|a: int| 0 <= a < picks@.len() implies #[trigger] picks@[a] < t@.len() by {
            assert(as_ints(picks@)[a] == picks@[a]);
        }
    }
    while k < picks.len()
        invariant
            k <= picks@.len(),
            forall|a: int| 0 <= a < picks@.len() ==> #[trigger] picks@[a] < t@.len(),
            out@.len() == k,
            forall|a: int| 0 <= a < k ==> #[trigger] out@[a] == t@[as_ints(picks@)[a]],
        decreases picks@.len() - k,
    {
        out.push(t[picks[k]].copy());
        k += 1;
    }
    out
}

} // verus!
