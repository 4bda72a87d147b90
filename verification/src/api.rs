//! What the server answers.
//!
//! A request may be held to one manufacturer, its scope. What belongs to
//! another is then answered as if it did not exist.

use crate::articles::{article_docs, suggests_articles, ArticleSuggestion};
use crate::bounds::are_bounds;
use crate::doc::{
    source_views, tagged_views, DocId, DocView, Locale, LuminaireDoc, MountingPlace, MountingType,
    SourceRef, SourceView, VariantDoc, VariantView,
};
use crate::facets::{
    counts_of, facet_list, mounting_name, place_name, place_text, relaxed, type_text, FacetCounts,
    FacetField, RangeBounds,
};
use crate::filter::{open_filter, text_only, Filter, FilterView};
use crate::hex::{parse_doc_id, parsed_id};
use crate::hits::{all_hits, hit_views, page_of, Pagination, SearchResult};
use crate::ids::IdList;
use crate::index::{InMemoryIndex, IndexSource};
use crate::slug::manufacturer_of;
use crate::suggest::{field_of, is_suggest_table, shown, suggests_facets, FacetSuggestion};
use crate::tables::{value_of, value_text, Axis};
use crate::text::{
    ascii_lower, chars_of, copy_opt_text, opt_text, owned, push_text, same_text, string_of_range,
    texts, to_ascii_lower,
};
use base64::Engine;
use vstd::prelude::*;

verus! {

/// Why a request is refused.
#[derive(Clone, Copy, PartialEq, Eq, Debug, Structural)]
pub enum ApiError {
    /// The document id is not sixty-four hexadecimal digits.
    InvalidDocId,
}

// ---------------------------------------------------------------------
// Scope
// ---------------------------------------------------------------------

/// Whether two names are the same but for the case of ASCII letters.
pub open spec fn same_but_case(a: Seq<char>, b: Seq<char>) -> bool {
    ascii_lower(a) == ascii_lower(b)
}

/// Whether a manufacturer is within a scope.
pub open spec fn in_scope(manufacturer: Seq<char>, scope: Option<Seq<char>>) -> bool {
    match scope {
        Some(s) => same_but_case(manufacturer, s),
        None => true,
    }
}

/// The scope of a request: the one that was installed for it, else the
/// manufacturer that the slug in its header names.
pub open spec fn scope_of(
    docs: Seq<DocView>,
    installed: Option<Seq<char>>,
    header: Option<Seq<char>>,
) -> Option<Seq<char>> {
    match installed {
        Some(s) => Some(s),
        None => match header {
            Some(slug) => manufacturer_of(docs, slug),
            None => None,
        },
    }
}

/// A filter held to a scope, whatever it asked for before.
pub open spec fn locked(f: FilterView, scope: Option<Seq<char>>) -> FilterView {
    match scope {
        Some(s) => FilterView { manufacturer: Some(seq![s]), ..f },
        None => f,
    }
}

/// Holding a filter to a scope twice is holding it once.
pub proof fn locking_is_idempotent(f: FilterView, scope: Option<Seq<char>>)
    ensures
        locked(locked(f, scope), scope) == locked(f, scope),
{
}

/// What a filter asks of manufacturers does not matter under a scope.
pub proof fn scope_is_authoritative(f: FilterView, g: FilterView, scope: Seq<char>)
    requires
        f == (FilterView { manufacturer: f.manufacturer, ..g }),
    ensures
        locked(f, Some(scope)) == locked(g, Some(scope)),
{
}

/// Every hit under a scope is of a document of that manufacturer.
pub proof fn scoped_hits_stay_in_scope(
    f: FilterView,
    docs: Seq<DocView>,
    scope: Seq<char>,
    k: int,
)
    requires
        0 <= k < all_hits(locked(f, Some(scope)), docs).len(),
    ensures
        exists|i: int|
            0 <= i < docs.len() && (#[trigger] docs[i]).id == all_hits(
                locked(f, Some(scope)),
                docs,
            )[k].0 && docs[i].manufacturer == scope,
{
    crate::hits::held_to_manufacturer(locked(f, Some(scope)), docs, scope, k);
}

/// Under a scope a document matches exactly if it is of that manufacturer
/// and meets all that is asked beside the manufacturer. Without a scope
/// nothing changes.
pub proof fn scopes_add_a_demand(f: FilterView, d: DocView, scope: Seq<char>)
    ensures
        crate::filter::doc_matches(locked(f, Some(scope)), d) <==> d.manufacturer == scope
            && crate::filter::doc_matches(FilterView { manufacturer: None, ..f }, d),
        locked(f, None) == f,
{
    let g = locked(f, Some(scope));
    let h = FilterView { manufacturer: None, ..f };
    let one = seq![scope];
    assert(one[0] == scope);
    assert forall|i: int| 0 <= i < d.variants.len() implies crate::filter::variant_matches(
        g,
        #[trigger] d.variants[i],
    ) == crate::filter::variant_matches(h, d.variants[i]) by {}
}

/// The scope that was installed goes before the one that the header
/// names.
pub proof fn installed_scopes_go_first(docs: Seq<DocView>, s: Seq<char>, slug: Seq<char>)
    ensures
        scope_of(docs, Some(s), Some(slug)) == Some(s),
        scope_of(docs, Some(s), None) == Some(s),
        scope_of(docs, None, Some(slug)) == manufacturer_of(docs, slug),
        scope_of(docs, None, None) is None,
{
}

/// The text of an optional string slice.
pub open spec fn scope_text(scope: Option<&String>) -> Option<Seq<char>> {
    match scope {
        Some(s) => Some(s@),
        None => None,
    }
}

/// Whether two names are the same but for the case of ASCII letters.
pub fn eq_ignore_case(a: &str, b: &str) -> (r: bool)
    ensures
        r == same_but_case(a@, b@),
{
    same_text(to_ascii_lower(a).as_str(), to_ascii_lower(b).as_str())
}

/// Whether a manufacturer is within a scope.
fn is_in_scope(manufacturer: &str, scope: Option<&String>) -> (r: bool)
    ensures
        r == in_scope(manufacturer@, scope_text(scope)),
{
    match scope {
        Some(s) => eq_ignore_case(manufacturer, s.as_str()),
        None => true,
    }
}

/// The scope of a request.
pub fn current_manufacturer_scope(
    idx: &InMemoryIndex,
    installed: &Option<String>,
    header: &Option<String>,
) -> (r: Option<String>)
    ensures
        opt_text(r) == scope_of(idx.corpus(), opt_text(*installed), opt_text(*header)),
{
    match installed {
        Some(s) => Some(s.clone()),
        None => match header {
            Some(slug) => idx.resolve_manufacturer(slug.as_str()),
            None => None,
        },
    }
}

/// Holds a filter to a manufacturer.
pub fn lock_manufacturer(filter: &mut Filter, scope: &String)
    ensures
        final(filter)@ == locked(old(filter)@, Some(scope@)),
{
    let mut only: Vec<String> = Vec::new();
    only.push(scope.clone());
    proof {
        assert(texts(only@) =~= seq![scope@]);
    }
    filter.manufacturer = Some(only);
}

/// The view of a filter that may be absent.
pub open spec fn asked(filter: Option<Filter>) -> FilterView {
    match filter {
        Some(f) => f@,
        None => open_filter(),
    }
}

/// The filter of a request, held to its scope.
fn scoped_filter(filter: Option<Filter>, scope: Option<&String>) -> (r: Filter)
    ensures
        r@ == locked(asked(filter), scope_text(scope)),
{
    let mut f: Filter = match filter {
        Some(f) => f,
        None => Filter::default(),
    };
    match scope {
        Some(s) => lock_manufacturer(&mut f, s),
        None => {},
    }
    f
}

// ---------------------------------------------------------------------
// Searches
// ---------------------------------------------------------------------

/// A page of the hits of a filter; the first fifty where no page was
/// asked for.
pub fn search_docs(
    idx: &InMemoryIndex,
    filter: Option<Filter>,
    pagination: Option<Pagination>,
    scope: Option<&String>,
) -> (r: SearchResult)
    requires
        idx.well_formed(),
    ensures
        ({
            let every = all_hits(locked(asked(filter), scope_text(scope)), idx.corpus());
            let page = match pagination {
                Some(p) => p,
                None => (Pagination { offset: 0, limit: 50 }),
            };
            hit_views(r.hits@) == page_of(every, page) && r.total == every.len() % 0x1_0000_0000
        }),
{
    let f: Filter = scoped_filter(filter, scope);
    let page: Pagination = match pagination {
        Some(p) => p,
        None => Pagination::default(),
    };
    idx.search(&f, page)
}

/// The counts of the given fields. None are counted for a filter that
/// asks for nothing but text.
pub fn fetch_facets(
    idx: &InMemoryIndex,
    filter: Option<Filter>,
    fields: Option<Vec<FacetField>>,
    scope: Option<&String>,
) -> (r: FacetCounts)
    requires
        idx.well_formed(),
    ensures
        ({
            let f = locked(asked(filter), scope_text(scope));
            let wanted = match fields {
                Some(list) => list@,
                None => Seq::empty(),
            };
            forall|field: FacetField|
                if !text_only(f) && wanted.contains(field) {
                    facet_list(
                        #[trigger] counts_of(r, field),
                        idx.corpus(),
                        relaxed(f, field),
                        field,
                    )
                } else {
                    counts_of(r, field).len() == 0
                }
        }),
{
    let f: Filter = scoped_filter(filter, scope);
    let wanted: Vec<FacetField> = match fields {
        Some(list) => list,
        None => Vec::new(),
    };
    if f.is_text_only() {
        return FacetCounts::default();
    }
    idx.facets(&f, wanted.as_slice())
}

/// The spans of the measurements under a filter.
pub fn fetch_range_bounds(
    idx: &InMemoryIndex,
    filter: Option<Filter>,
    scope: Option<&String>,
) -> (r: RangeBounds)
    requires
        idx.well_formed(),
    ensures
        are_bounds(r, idx.corpus(), locked(asked(filter), scope_text(scope))),
{
    let f: Filter = scoped_filter(filter, scope);
    idx.range_bounds(&f)
}

// ---------------------------------------------------------------------
// Documents
// ---------------------------------------------------------------------

/// The document that an identity leads to.
pub open spec fn found_doc(docs: Seq<DocView>, at: Map<Seq<u8>, int>, id: Seq<u8>) -> Option<
    DocView,
> {
    if at.contains_key(id) {
        Some(docs[at[id]])
    } else {
        None
    }
}

/// The document that an identity leads to within a scope.
pub open spec fn visible_doc(
    docs: Seq<DocView>,
    at: Map<Seq<u8>, int>,
    id: Seq<u8>,
    scope: Option<Seq<char>>,
) -> Option<DocView> {
    match found_doc(docs, at, id) {
        Some(d) => if in_scope(d.manufacturer, scope) {
            Some(d)
        } else {
            None
        },
        None => None,
    }
}

/// The document that a hexadecimal text leads to within a scope.
pub open spec fn requested_doc(
    docs: Seq<DocView>,
    at: Map<Seq<u8>, int>,
    hex: Seq<char>,
    scope: Option<Seq<char>>,
) -> Option<DocView> {
    match parsed_id(hex) {
        Some(id) => visible_doc(docs, at, id, scope),
        None => None,
    }
}

/// A document of another manufacturer is not seen under a scope, no
/// more than one that does not exist.
pub proof fn foreign_docs_are_unseen(
    docs: Seq<DocView>,
    at: Map<Seq<u8>, int>,
    hex: Seq<char>,
    scope: Seq<char>,
)
    ensures
        requested_doc(docs, at, hex, Some(scope)) matches Some(d) ==> same_but_case(
            d.manufacturer,
            scope,
        ),
        requested_doc(docs, at, hex, None) is None ==> requested_doc(docs, at, hex, Some(scope))
            is None,
{
}

/// The name that a viewer opens a source by.
pub open spec fn viewer_name_of(s: SourceView) -> Option<Seq<char>> {
    match s {
        SourceView::Path(p) => Some(p),
        SourceView::Url(u) => Some(u),
        SourceView::ContentOnly => None,
    }
}

/// A document and the name that a viewer opens it by.
pub struct DocPayload {
    /// The document.
    pub doc: LuminaireDoc,
    /// The name for the viewer, where the source has one.
    pub viewer_name: Option<String>,
}

/// The view of a [`DocPayload`].
pub open spec fn payload_view(p: DocPayload) -> (DocView, Option<Seq<char>>) {
    (p.doc@, opt_text(p.viewer_name))
}

/// The views of several payloads.
pub open spec fn payload_views(v: Seq<DocPayload>) -> Seq<(DocView, Option<Seq<char>>)> {
    v.map_values(|p: DocPayload| payload_view(p))
}

/// The payload of a document.
pub open spec fn payload_of(d: DocView) -> (DocView, Option<Seq<char>>) {
    (d, viewer_name_of(d.source))
}

/// The name that a viewer opens a source by.
pub fn viewer_name(s: &SourceRef) -> (r: Option<String>)
    ensures
        opt_text(r) == viewer_name_of(s@),
{
    match s {
        SourceRef::Path(p) => Some(p.clone()),
        SourceRef::Url(u) => Some(u.clone()),
        SourceRef::ContentOnly => None,
    }
}

/// The payload of a document.
fn pack(d: &LuminaireDoc) -> (r: DocPayload)
    ensures
        payload_view(r) == payload_of(d@),
{
    DocPayload { doc: d.copy(), viewer_name: viewer_name(&d.source) }
}

/// Adds a payload.
fn add_payload(out: &mut Vec<DocPayload>, d: &LuminaireDoc)
    ensures
        payload_views(final(out)@) == payload_views(old(out)@).push(payload_of(d@)),
{
    let ghost before = payload_views(out@);
    out.push(pack(d));
    proof {
        assert(payload_views(out@) =~= before.push(payload_of(d@)));
    }
}

/// The document that an identity leads to within a scope.
fn see<'a>(idx: &'a InMemoryIndex, id: &DocId, scope: Option<&String>) -> (r: Option<
    &'a LuminaireDoc,
>)
    requires
        idx.well_formed(),
    ensures
        visible_doc(idx.corpus(), idx.positions(), id@, scope_text(scope)) == (match r {
            Some(d) => Some(d@),
            None => None,
        }),
{
    match idx.doc(id) {
        Some(d) => {
            if is_in_scope(d.manufacturer.as_str(), scope) {
                Some(d)
            } else {
                None
            }
        },
        None => None,
    }
}

/// The document with a given id, as far as the scope lets it be seen.
pub fn fetch_doc(idx: &InMemoryIndex, id_hex: &str, scope: Option<&String>) -> (r: Result<
    Option<DocPayload>,
    ApiError,
>)
    requires
        idx.well_formed(),
    ensures
        match r {
            Ok(found) => parsed_id(id_hex@) is Some && (match found {
                Some(p) => requested_doc(
                    idx.corpus(),
                    idx.positions(),
                    id_hex@,
                    scope_text(scope),
                ) matches Some(d) && payload_view(p) == payload_of(d),
                None => requested_doc(idx.corpus(), idx.positions(), id_hex@, scope_text(scope))
                    is None,
            }),
            Err(e) => e == ApiError::InvalidDocId && parsed_id(id_hex@) is None,
        },
{
    match parse_doc_id(id_hex) {
        Some(id) => match see(idx, &id, scope) {
            Some(d) => Ok(Some(pack(d))),
            None => Ok(None),
        },
        None => Err(ApiError::InvalidDocId),
    }
}

/// The payloads of the first `n` requested documents that are seen, in
/// the order of the requests.
pub open spec fn requested_payloads(
    docs: Seq<DocView>,
    at: Map<Seq<u8>, int>,
    ids: Seq<Seq<char>>,
    scope: Option<Seq<char>>,
    n: int,
) -> Seq<(DocView, Option<Seq<char>>)>
    decreases n,
{
    if n <= 0 {
        Seq::empty()
    } else {
        let front = requested_payloads(docs, at, ids, scope, n - 1);
        match requested_doc(docs, at, ids[n - 1], scope) {
            Some(d) => front.push(payload_of(d)),
            None => front,
        }
    }
}

/// The documents with the given ids. Those that are not seen are passed
/// over.
pub fn fetch_docs(idx: &InMemoryIndex, ids_hex: &Vec<String>, scope: Option<&String>) -> (r: Vec<
    DocPayload,
>)
    requires
        idx.well_formed(),
    ensures
        payload_views(r@) == requested_payloads(
            idx.corpus(),
            idx.positions(),
            texts(ids_hex@),
            scope_text(scope),
            ids_hex@.len() as int,
        ),
{
    let ghost ids = texts(ids_hex@);
    let mut out: Vec<DocPayload> = Vec::new();
    let mut i: usize = 0;
    proof {
        assert(payload_views(out@) =~= Seq::empty());
    }
    while i < ids_hex.len()
        invariant
            i <= ids_hex@.len(),
            idx.well_formed(),
            ids == texts(ids_hex@),
            payload_views(out@) == requested_payloads(
                idx.corpus(),
                idx.positions(),
                ids,
                scope_text(scope),
                i as int,
            ),
        decreases ids_hex@.len() - i,
    {
        proof {
            assert(ids[i as int] == ids_hex@[i as int]@);
        }
        match parse_doc_id(ids_hex[i].as_str()) {
            Some(id) => match see(idx, &id, scope) {
                Some(d) => add_payload(&mut out, d),
                None => {},
            },
            None => {},
        }
        i += 1;
    }
    out
}

/// The payloads of the first `n` documents at `found` that are within a
/// scope.
pub open spec fn scoped_payloads(
    docs: Seq<DocView>,
    found: Seq<int>,
    scope: Option<Seq<char>>,
    n: int,
) -> Seq<(DocView, Option<Seq<char>>)>
    decreases n,
{
    if n <= 0 {
        Seq::empty()
    } else {
        let front = scoped_payloads(docs, found, scope, n - 1);
        if in_scope(docs[found[n - 1]].manufacturer, scope) {
            front.push(payload_of(docs[found[n - 1]]))
        } else {
            front
        }
    }
}

/// The documents that an article number finds within a scope.
pub fn lookup_article(idx: &InMemoryIndex, article: &str, scope: Option<&String>) -> (r: Vec<
    DocPayload,
>)
    requires
        idx.well_formed(),
    ensures
        ({
            let found = article_docs(idx.corpus(), article@);
            payload_views(r@) == scoped_payloads(
                idx.corpus(),
                found,
                scope_text(scope),
                found.len() as int,
            )
        }),
{
    let hits: Vec<&LuminaireDoc> = idx.lookup_article(article);
    let ghost docs = idx.corpus();
    let ghost found = article_docs(docs, article@);
    let mut out: Vec<DocPayload> = Vec::new();
    let mut i: usize = 0;
    proof {
        assert(payload_views(out@) =~= Seq::empty());
    }
    while i < hits.len()
        invariant
            i <= hits@.len() == found.len(),
            forall|k: int| 0 <= k < hits@.len() ==> (#[trigger] hits@[k])@ == docs[found[k]],
            payload_views(out@) == scoped_payloads(docs, found, scope_text(scope), i as int),
        decreases hits@.len() - i,
    {
        let d: &LuminaireDoc = hits[i];
        proof {
            assert(hits@[i as int]@ == docs[found[i as int]]);
        }
        if is_in_scope(d.manufacturer.as_str(), scope) {
            add_payload(&mut out, d);
        }
        i += 1;
    }
    out
}

// ---------------------------------------------------------------------
// Variants
// ---------------------------------------------------------------------

/// A requested variant.
#[derive(Debug)]
pub struct VariantRef {
    /// Hexadecimal id of the document.
    pub doc_id: String,
    /// Position of the variant in the document.
    pub variant: u16,
}

/// The figures that a result row shows, as keys.
#[derive(Clone, Copy, PartialEq, Eq, Debug, Structural)]
pub struct PhotometrySlim {
    /// Luminous flux (lm).
    pub flux_lm: Option<i32>,
    /// Electrical power (W).
    pub power_w: Option<i32>,
    /// Efficacy (lm/W).
    pub efficacy_lm_w: Option<i32>,
    /// Colour temperature (K).
    pub cct_k: Option<u16>,
    /// Colour rendering index.
    pub cri_ra: Option<u8>,
    /// Half-peak beam angle (degrees).
    pub beam_deg: Option<i32>,
}

/// What a result row shows.
#[derive(Debug)]
pub struct VariantPayloadSlim {
    /// Hexadecimal id of the document, as requested.
    pub doc_id_hex: String,
    /// Position of the variant.
    pub variant_index: u16,
    /// Manufacturer.
    pub manufacturer: String,
    /// Product name.
    pub product: String,
    /// Name of the variant.
    pub variant_name: String,
    /// Product code, else trade number.
    pub sku: Option<String>,
    /// The name for the viewer, where the source has one.
    pub viewer_name: Option<String>,
    /// Figures.
    pub phot: Option<PhotometrySlim>,
    /// IP code.
    pub ip_code: Option<String>,
    /// Lamp type.
    pub lamp_type: Option<String>,
    /// Control gear interfaces.
    pub control_gear_interfaces: Vec<String>,
    /// Applications.
    pub applications: Vec<String>,
    /// Mounting place and type.
    pub mounting: Option<String>,
    /// Depth of the recess (mm).
    pub recessed_depth_mm: Option<u32>,
    /// Whether a 3D model is there.
    pub has_3d: bool,
    /// Whether there is emergency lighting.
    pub has_emergency_lighting: bool,
    /// Whether there are figures.
    pub has_photometry: bool,
    /// The beginning of the description.
    pub description_snippet: Option<String>,
    /// Whether the description goes on.
    pub description_truncated: bool,
}

/// The view of a [`VariantPayloadSlim`].
pub struct SlimView {
    /// Hexadecimal id of the document.
    pub doc_id_hex: Seq<char>,
    /// Position of the variant.
    pub variant_index: u16,
    /// Manufacturer.
    pub manufacturer: Seq<char>,
    /// Product name.
    pub product: Seq<char>,
    /// Name of the variant.
    pub variant_name: Seq<char>,
    /// Product code, else trade number.
    pub sku: Option<Seq<char>>,
    /// The name for the viewer.
    pub viewer_name: Option<Seq<char>>,
    /// Figures.
    pub phot: Option<PhotometrySlim>,
    /// IP code.
    pub ip_code: Option<Seq<char>>,
    /// Lamp type.
    pub lamp_type: Option<Seq<char>>,
    /// Control gear interfaces.
    pub control_gear_interfaces: Seq<Seq<char>>,
    /// Applications.
    pub applications: Seq<Seq<char>>,
    /// Mounting place and type.
    pub mounting: Option<Seq<char>>,
    /// Depth of the recess.
    pub recessed_depth_mm: Option<u32>,
    /// Whether a 3D model is there.
    pub has_3d: bool,
    /// Whether there is emergency lighting.
    pub has_emergency_lighting: bool,
    /// Whether there are figures.
    pub has_photometry: bool,
    /// The beginning of the description.
    pub description_snippet: Option<Seq<char>>,
    /// Whether the description goes on.
    pub description_truncated: bool,
}

impl View for VariantPayloadSlim {
    type V = SlimView;

    open spec fn view(&self) -> SlimView {
        SlimView {
            doc_id_hex: self.doc_id_hex@,
            variant_index: self.variant_index,
            manufacturer: self.manufacturer@,
            product: self.product@,
            variant_name: self.variant_name@,
            sku: opt_text(self.sku),
            viewer_name: opt_text(self.viewer_name),
            phot: self.phot,
            ip_code: opt_text(self.ip_code),
            lamp_type: opt_text(self.lamp_type),
            control_gear_interfaces: texts(self.control_gear_interfaces@),
            applications: texts(self.applications@),
            mounting: opt_text(self.mounting),
            recessed_depth_mm: self.recessed_depth_mm,
            has_3d: self.has_3d,
            has_emergency_lighting: self.has_emergency_lighting,
            has_photometry: self.has_photometry,
            description_snippet: opt_text(self.description_snippet),
            description_truncated: self.description_truncated,
        }
    }
}

/// The views of several rows.
pub open spec fn slim_views(v: Seq<VariantPayloadSlim>) -> Seq<SlimView> {
    v.map_values(|p: VariantPayloadSlim| p@)
}

/// The values of several ids.
pub open spec fn names_of(axis: Axis, ids: Seq<u8>) -> Seq<Seq<char>>
    decreases ids.len(),
{
    if ids.len() == 0 {
        Seq::empty()
    } else {
        match value_text(axis, ids.last()) {
            Some(v) => names_of(axis, ids.drop_last()).push(v),
            None => names_of(axis, ids.drop_last()),
        }
    }
}

/// The value of an id.
pub open spec fn name_of(axis: Axis, id: Option<u8>) -> Option<Seq<char>> {
    match id {
        Some(i) => value_text(axis, i),
        None => None,
    }
}

/// Mounting place and type, where either is known.
pub open spec fn mounting_line(place: MountingPlace, kind: MountingType) -> Option<Seq<char>> {
    if place == MountingPlace::Unknown && kind == MountingType::Unknown {
        None
    } else {
        Some(place_text(place) + " \u{b7} "@ + type_text(kind))
    }
}

/// The place of the first description in a language, from `i` on.
pub open spec fn description_in(ds: Seq<(Locale, Seq<char>)>, l: Locale, i: int) -> Option<int>
    decreases ds.len() - i,
{
    if i < 0 || i >= ds.len() {
        None
    } else if ds[i].0 == l {
        Some(i)
    } else {
        description_in(ds, l, i + 1)
    }
}

/// The description to show: the English one, else the first.
pub open spec fn chosen_description(ds: Seq<(Locale, Seq<char>)>) -> Option<Seq<char>> {
    match description_in(ds, Locale(101, 110), 0) {
        Some(i) => Some(ds[i].1),
        None => if ds.len() > 0 {
            Some(ds[0].1)
        } else {
            None
        },
    }
}

/// At most two hundred characters of a text, with a mark where it goes
/// on.
pub open spec fn snippet_of(s: Seq<char>) -> Seq<char> {
    if s.len() > 200 {
        s.take(200).push('\u{2026}')
    } else {
        s
    }
}

/// The file that a variant came from.
pub open spec fn row_source(d: DocView, v: VariantView) -> SourceView {
    if v.source_index < d.source_paths.len() {
        d.source_paths[v.source_index as int]
    } else {
        d.source
    }
}

/// The row for a variant of a document.
pub open spec fn slim_of(d: DocView, hex: Seq<char>, i: u16) -> SlimView {
    let v = d.variants[i as int];
    SlimView {
        doc_id_hex: hex,
        variant_index: i,
        manufacturer: d.manufacturer,
        product: d.product,
        variant_name: v.name,
        sku: if d.product_code is Some {
            d.product_code
        } else {
            d.gtin
        },
        viewer_name: viewer_name_of(row_source(d, v)),
        phot: match v.photometry {
            Some(p) => Some(
                PhotometrySlim {
                    flux_lm: p.flux_lm,
                    power_w: p.power_w,
                    efficacy_lm_w: p.efficacy_lm_w,
                    cct_k: p.cct_k,
                    cri_ra: p.cri_ra,
                    beam_deg: p.beam_deg,
                },
            ),
            None => None,
        },
        ip_code: name_of(Axis::IpCode, d.ip_code),
        lamp_type: name_of(Axis::LampType, v.lamp_type),
        control_gear_interfaces: names_of(Axis::ControlGearInterface, v.control_gear_interfaces),
        applications: names_of(Axis::Application, d.applications),
        mounting: mounting_line(v.mounting_place, v.mounting_type),
        recessed_depth_mm: v.recessed_depth_mm,
        has_3d: v.has_3d,
        has_emergency_lighting: v.has_emergency_lighting,
        has_photometry: v.photometry is Some,
        description_snippet: match chosen_description(d.descriptions) {
            Some(s) => Some(snippet_of(s)),
            None => None,
        },
        description_truncated: match chosen_description(d.descriptions) {
            Some(s) => s.len() > 200,
            None => false,
        },
    }
}

/// The rows of the first `n` requested variants that are there, in the
/// order of the requests.
pub open spec fn requested_rows(
    docs: Seq<DocView>,
    at: Map<Seq<u8>, int>,
    refs: Seq<VariantRef>,
    scope: Option<Seq<char>>,
    n: int,
) -> Seq<SlimView>
    decreases n,
{
    if n <= 0 {
        Seq::empty()
    } else {
        let front = requested_rows(docs, at, refs, scope, n - 1);
        let r = refs[n - 1];
        match requested_doc(docs, at, r.doc_id@, scope) {
            Some(d) => if r.variant < d.variants.len() {
                front.push(slim_of(d, r.doc_id@, r.variant))
            } else {
                front
            },
            None => front,
        }
    }
}

/// Every row under a scope is of that manufacturer.
pub proof fn scoped_rows_stay_in_scope(
    docs: Seq<DocView>,
    at: Map<Seq<u8>, int>,
    refs: Seq<VariantRef>,
    scope: Seq<char>,
    n: int,
)
    requires
        0 <= n <= refs.len(),
    ensures
        forall|k: int|
            0 <= k < requested_rows(docs, at, refs, Some(scope), n).len() ==> same_but_case(
                (#[trigger] requested_rows(docs, at, refs, Some(scope), n)[k]).manufacturer,
                scope,
            ),
    decreases n,
{
    if n > 0 {
        scoped_rows_stay_in_scope(docs, at, refs, scope, n - 1);
    }
}

/// A row shows the figures, the name and the marks of its own variant,
/// and the names, the IP code and the applications of its document.
#[verifier::spinoff_prover]
pub proof fn rows_show_their_variant(d: DocView, hex: Seq<char>, i: u16)
    requires
        i < d.variants.len(),
    ensures
        ({
            let v = d.variants[i as int];
            let r = slim_of(d, hex, i);
            &&& r.doc_id_hex == hex && r.variant_index == i
            &&& r.manufacturer == d.manufacturer && r.product == d.product
            &&& r.variant_name == v.name
            &&& d.product_code is Some ==> r.sku == d.product_code
            &&& d.product_code is None ==> r.sku == d.gtin
            &&& r.has_photometry == v.photometry is Some
            &&& r.phot is Some == v.photometry is Some
            &&& v.photometry matches Some(p) ==> {
                &&& r.phot->0.flux_lm == p.flux_lm
                &&& r.phot->0.power_w == p.power_w
                &&& r.phot->0.efficacy_lm_w == p.efficacy_lm_w
                &&& r.phot->0.cct_k == p.cct_k
                &&& r.phot->0.cri_ra == p.cri_ra
                &&& r.phot->0.beam_deg == p.beam_deg
            }
            &&& d.ip_code matches Some(k) ==> r.ip_code == value_text(Axis::IpCode, k)
            &&& d.ip_code is None ==> r.ip_code is None
            &&& v.lamp_type matches Some(k) ==> r.lamp_type == value_text(Axis::LampType, k)
            &&& v.lamp_type is None ==> r.lamp_type is None
            &&& r.recessed_depth_mm == v.recessed_depth_mm
            &&& r.has_3d == v.has_3d
            &&& r.has_emergency_lighting == v.has_emergency_lighting
            &&& r.mounting is None <==> v.mounting_place == MountingPlace::Unknown
                && v.mounting_type == MountingType::Unknown
        }),
{
}

/// A row is opened where its variant came from, and names the place of
/// mounting before its type.
pub proof fn rows_open_their_own_source(d: DocView, hex: Seq<char>, i: u16)
    requires
        i < d.variants.len(),
    ensures
        ({
            let v = d.variants[i as int];
            let r = slim_of(d, hex, i);
            let from = if v.source_index < d.source_paths.len() {
                d.source_paths[v.source_index as int]
            } else {
                d.source
            };
            &&& from matches SourceView::Path(p) ==> r.viewer_name == Some(p)
            &&& from matches SourceView::Url(u) ==> r.viewer_name == Some(u)
            &&& from is ContentOnly ==> r.viewer_name is None
            &&& r.mounting matches Some(s) ==> s == place_text(v.mounting_place) + " \u{b7} "@
                + type_text(v.mounting_type)
        }),
{
}

/// The lists of a row hold the values of the ids that the variant and its
/// document have, and no others.
pub proof fn rows_list_values(d: DocView, hex: Seq<char>, i: u16, x: Seq<char>)
    requires
        i < d.variants.len(),
    ensures
        slim_of(d, hex, i).applications.contains(x) <==> exists|k: int|
            0 <= k < d.applications.len() && value_text(
                Axis::Application,
                #[trigger] d.applications[k],
            ) == Some(x),
        slim_of(d, hex, i).control_gear_interfaces.contains(x) <==> exists|k: int|
            0 <= k < d.variants[i as int].control_gear_interfaces.len() && value_text(
                Axis::ControlGearInterface,
                #[trigger] d.variants[i as int].control_gear_interfaces[k],
            ) == Some(x),
{
    names_are_exact(Axis::Application, d.applications, x);
    names_are_exact(
        Axis::ControlGearInterface,
        d.variants[i as int].control_gear_interfaces,
        x,
    );
}

proof fn names_are_exact(axis: Axis, ids: Seq<u8>, x: Seq<char>)
    ensures
        names_of(axis, ids).contains(x) <==> exists|k: int|
            0 <= k < ids.len() && value_text(axis, #[trigger] ids[k]) == Some(x),
    decreases ids.len(),
{
    if ids.len() > 0 {
        let front = ids.drop_last();
        names_are_exact(axis, front, x);
        let had = names_of(axis, front);
        let all = names_of(axis, ids);
        if had.contains(x) {
            let k = choose|k: int| 0 <= k < had.len() && had[k] == x;
            assert(all[k] == x);
            let j = choose|j: int|
                0 <= j < front.len() && value_text(axis, #[trigger] front[j]) == Some(x);
            assert(ids[j] == front[j]);
        }
        if value_text(axis, ids.last()) == Some(x) {
            assert(all[had.len() as int] == x);
            assert(value_text(axis, ids[ids.len() - 1]) == Some(x));
        }
        if all.contains(x) && !had.contains(x) {
            let k = choose|k: int| 0 <= k < all.len() && all[k] == x;
            if k < had.len() {
                assert(had[k] == x);
            }
        }
        if exists|k: int| 0 <= k < ids.len() && value_text(axis, #[trigger] ids[k]) == Some(x) {
            let k = choose|k: int|
                0 <= k < ids.len() && value_text(axis, #[trigger] ids[k]) == Some(x);
            if k < front.len() {
                assert(front[k] == ids[k]);
            }
        }
    }
}

/// The description of a row is the English one where there is one, else
/// the first. It is cut behind two hundred characters, with an ellipsis,
/// and only then marked as cut.
#[verifier::spinoff_prover]
pub proof fn rows_show_the_english_description(d: DocView, hex: Seq<char>, i: u16, k: int)
    requires
        i < d.variants.len(),
    ensures
        ({
            let r = slim_of(d, hex, i);
            let en = Locale('e' as u8, 'n' as u8);
            let shows = |s: Seq<char>| {
                &&& r.description_snippet is Some
                &&& r.description_truncated <==> s.len() > 200
                &&& s.len() <= 200 ==> r.description_snippet->0 == s
                &&& s.len() > 200 ==> r.description_snippet->0 == s.take(200) + seq!['\u{2026}']
            };
            &&& d.descriptions.len() == 0 ==> r.description_snippet is None
                && !r.description_truncated
            &&& 0 <= k < d.descriptions.len() && d.descriptions[k].0 == en && (forall|j: int|
                0 <= j < k ==> (#[trigger] d.descriptions[j]).0 != en) ==> shows(
                d.descriptions[k].1,
            )
            &&& d.descriptions.len() > 0 && (forall|j: int|
                0 <= j < d.descriptions.len() ==> (#[trigger] d.descriptions[j]).0 != en) ==> shows(
                d.descriptions[0].1,
            )
        }),
{
    let ds = d.descriptions;
    let en = Locale('e' as u8, 'n' as u8);
    assert(en == Locale(101, 110));
    if 0 <= k < ds.len() && ds[k].0 == en && forall|j: int|
        0 <= j < k ==> (#[trigger] ds[j]).0 != en {
        description_found(ds, en, 0, k);
    }
    if forall|j: int| 0 <= j < ds.len() ==> (#[trigger] ds[j]).0 != en {
        description_missing(ds, en, 0);
    }
    if let Some(s) = chosen_description(ds) {
        if s.len() > 200 {
            assert(snippet_of(s) =~= s.take(200) + seq!['\u{2026}']);
        }
    }
}

proof fn description_found(ds: Seq<(Locale, Seq<char>)>, l: Locale, i: int, k: int)
    requires
        0 <= i <= k < ds.len(),
        ds[k].0 == l,
        forall|j: int| i <= j < k ==> (#[trigger] ds[j]).0 != l,
    ensures
        description_in(ds, l, i) == Some(k),
    decreases k - i,
{
    if i < k {
        assert(ds[i].0 != l);
        description_found(ds, l, i + 1, k);
    }
}

proof fn description_missing(ds: Seq<(Locale, Seq<char>)>, l: Locale, i: int)
    requires
        0 <= i <= ds.len(),
        forall|j: int| 0 <= j < ds.len() ==> (#[trigger] ds[j]).0 != l,
    ensures
        description_in(ds, l, i) is None,
    decreases ds.len() - i,
{
    if i < ds.len() {
        assert(ds[i].0 != l);
        description_missing(ds, l, i + 1);
    }
}

/// There is a row for every request of a variant that is there and
/// within the scope, in the order of the requests, and no other row.
pub proof fn rows_answer_requests(
    docs: Seq<DocView>,
    at: Map<Seq<u8>, int>,
    refs: Seq<VariantRef>,
    scope: Option<Seq<char>>,
    n: int,
)
    requires
        0 < n <= refs.len(),
    ensures
        ({
            let r = refs[n - 1];
            let before = requested_rows(docs, at, refs, scope, n - 1);
            let there = parsed_id(r.doc_id@) is Some && at.contains_key(parsed_id(r.doc_id@)->0) && {
                let d = docs[at[parsed_id(r.doc_id@)->0]];
                in_scope(d.manufacturer, scope) && r.variant < d.variants.len()
            };
            &&& there ==> requested_rows(docs, at, refs, scope, n) == before + seq![
                slim_of(docs[at[parsed_id(r.doc_id@)->0]], r.doc_id@, r.variant),
            ]
            &&& !there ==> requested_rows(docs, at, refs, scope, n) == before
        }),
        requested_rows(docs, at, refs, scope, 0).len() == 0,
{
    let r = refs[n - 1];
    let before = requested_rows(docs, at, refs, scope, n - 1);
    if requested_doc(docs, at, r.doc_id@, scope) is Some {
        let d = requested_doc(docs, at, r.doc_id@, scope)->0;
        assert(before.push(slim_of(d, r.doc_id@, r.variant)) =~= before + seq![
            slim_of(d, r.doc_id@, r.variant),
        ]);
    }
}

/// A name is within a scope exactly if it is the same text but for the
/// case of ASCII letters. Without a scope every name is.
pub proof fn scopes_ignore_case(name: Seq<char>, scope: Seq<char>)
    ensures
        in_scope(name, None),
        in_scope(name, Some(name)),
        in_scope(name, Some(scope)) <==> name.len() == scope.len() && forall|i: int|
            0 <= i < name.len() ==> crate::text::ascii_lower_char(#[trigger] name[i])
                == crate::text::ascii_lower_char(scope[i]),
{
    let (a, b) = (ascii_lower(name), ascii_lower(scope));
    if in_scope(name, Some(scope)) {
        assert(a.len() == name.len() && b.len() == scope.len());
        assert forall|i: int| 0 <= i < name.len() implies crate::text::ascii_lower_char(
            #[trigger] name[i],
        ) == crate::text::ascii_lower_char(scope[i]) by {
            assert(a[i] == b[i]);
        }
    } else if name.len() == scope.len() && forall|i: int|
        0 <= i < name.len() ==> crate::text::ascii_lower_char(#[trigger] name[i])
            == crate::text::ascii_lower_char(scope[i]) {
        assert(a =~= b);
    }
}

/// The values of several ids.
pub fn list_names(axis: Axis, ids: &IdList) -> (r: Vec<String>)
    ensures
        texts(r@) == names_of(axis, ids@),
{
    let mut r: Vec<String> = Vec::new();
    let mut i: usize = 0;
    proof {
        assert(texts(r@) =~= Seq::empty());
        assert(ids@.take(0) =~= Seq::empty());
    }
    while i < ids.len()
        invariant
            i <= ids@.len(),
            texts(r@) == names_of(axis, ids@.take(i as int)),
        decreases ids@.len() - i,
    {
        let id: u8 = ids.get(i);
        proof {
            assert(ids@.take(i + 1).drop_last() =~= ids@.take(i as int));
            assert(ids@.take(i + 1).last() == id);
        }
        match value_of(axis, id) {
            Some(v) => {
                let ghost before = texts(r@);
                r.push(owned(v));
                proof {
                    assert(texts(r@) =~= before.push(v@));
                }
            },
            None => {},
        }
        i += 1;
    }
    proof {
        assert(ids@.take(ids@.len() as int) =~= ids@);
    }
    r
}

/// The value of an id.
pub fn one_name(axis: Axis, id: Option<u8>) -> (r: Option<String>)
    ensures
        opt_text(r) == name_of(axis, id),
{
    match id {
        Some(i) => match value_of(axis, i) {
            Some(v) => Some(owned(v)),
            None => None,
        },
        None => None,
    }
}

/// The beginning of the description to show, and whether it goes on.
pub fn pick_description_snippet(d: &LuminaireDoc) -> (r: (Option<String>, bool))
    ensures
        opt_text(r.0) == (match chosen_description(d@.descriptions) {
            Some(s) => Some(snippet_of(s)),
            None => None,
        }),
        r.1 == (match chosen_description(d@.descriptions) {
            Some(s) => s.len() > 200,
            None => false,
        }),
{
    let ghost ds = d@.descriptions;
    let english: Locale = Locale(101, 110);
    if d.descriptions.len() == 0 {
        return (None, false);
    }
    let mut at: usize = 0;
    let mut i: usize = 0;
    let mut found: bool = false;
    while i < d.descriptions.len() && !found
        invariant
            i <= d.descriptions@.len(),
            d.descriptions@.len() > 0,
            english == Locale(101, 110),
            ds == tagged_views(d.descriptions@),
            !found ==> at == 0 && description_in(ds, english, 0) == description_in(
                ds,
                english,
                i as int,
            ),
            found ==> at < d.descriptions@.len() && description_in(ds, english, 0) == Some(
                at as int,
            ),
        decreases d.descriptions@.len() - i, (if found { 0int } else { 1int }),
    {
        proof {
            assert(ds[i as int] == (d.descriptions@[i as int].0, d.descriptions@[i as int].1@));
        }
        if d.descriptions[i].0 == english {
            at = i;
            found = true;
        } else {
            i += 1;
        }
    }
    let full: &String = &d.descriptions[at].1;
    proof {
        assert(ds[at as int] == (d.descriptions@[at as int].0, full@));
        assert(chosen_description(ds) == Some(full@));
    }
    let cs: Vec<char> = chars_of(full.as_str());
    if cs.len() <= 200 {
        return (Some(full.clone()), false);
    }
    let mut s: String = string_of_range(&cs, 0, 200);
    s.push('\u{2026}');
    proof {
        assert(cs@.subrange(0, 200) =~= full@.take(200));
        assert(s@ =~= full@.take(200).push('\u{2026}'));
    }
    (Some(s), true)
}

/// The row for a variant of a document.
pub fn slim_row(d: &LuminaireDoc, hex: &String, i: u16) -> (r: VariantPayloadSlim)
    requires
        i < d.variants@.len(),
    ensures
        r@ == slim_of(d@, hex@, i),
{
    let v: &VariantDoc = &d.variants[i as usize];
    proof {
        assert(d@.variants[i as int] == v@);
    }
    let viewer: Option<String> = if (v.source_index as usize) < d.source_paths.len() {
        proof {
            assert(source_views(d.source_paths@)[v.source_index as int]
                == d.source_paths@[v.source_index as int]@);
        }
        viewer_name(&d.source_paths[v.source_index as usize])
    } else {
        viewer_name(&d.source)
    };
    let sku: Option<String> = match &d.product_code {
        Some(s) => Some(s.clone()),
        None => copy_opt_text(&d.gtin),
    };
    let phot: Option<PhotometrySlim> = match &v.photometry {
        Some(p) => Some(
            PhotometrySlim {
                flux_lm: p.flux_lm,
                power_w: p.power_w,
                efficacy_lm_w: p.efficacy_lm_w,
                cct_k: p.cct_k,
                cri_ra: p.cri_ra,
                beam_deg: p.beam_deg,
            },
        ),
        None => None,
    };
    let mounting: Option<String> = if v.mounting_place == MountingPlace::Unknown
        && v.mounting_type == MountingType::Unknown {
        None
    } else {
        let mut s: String = owned(place_name(v.mounting_place));
        push_text(&mut s, " \u{b7} ");
        push_text(&mut s, mounting_name(v.mounting_type));
        Some(s)
    };
    let (description_snippet, description_truncated) = pick_description_snippet(d);
    VariantPayloadSlim {
        doc_id_hex: hex.clone(),
        variant_index: i,
        manufacturer: d.manufacturer.clone(),
        product: d.product.clone(),
        variant_name: v.name.clone(),
        sku,
        viewer_name: viewer,
        phot,
        ip_code: one_name(Axis::IpCode, d.ip_code),
        lamp_type: one_name(Axis::LampType, v.lamp_type),
        control_gear_interfaces: list_names(
            Axis::ControlGearInterface,
            &v.control_gear_interfaces,
        ),
        applications: list_names(Axis::Application, &d.applications),
        mounting,
        recessed_depth_mm: v.recessed_depth_mm,
        has_3d: v.has_3d,
        has_emergency_lighting: v.has_emergency_lighting,
        has_photometry: v.photometry.is_some(),
        description_snippet,
        description_truncated,
    }
}

/// The rows of the requested variants. Those that are not there are
/// passed over.
pub fn fetch_variants(
    idx: &InMemoryIndex,
    refs: &Vec<VariantRef>,
    scope: Option<&String>,
) -> (r: Vec<VariantPayloadSlim>)
    requires
        idx.well_formed(),
    ensures
        slim_views(r@) == requested_rows(
            idx.corpus(),
            idx.positions(),
            refs@,
            scope_text(scope),
            refs@.len() as int,
        ),
{
    let mut out: Vec<VariantPayloadSlim> = Vec::new();
    let mut i: usize = 0;
    proof {
        assert(slim_views(out@) =~= Seq::empty());
    }
    while i < refs.len()
        invariant
            i <= refs@.len(),
            idx.well_formed(),
            slim_views(out@) == requested_rows(
                idx.corpus(),
                idx.positions(),
                refs@,
                scope_text(scope),
                i as int,
            ),
        decreases refs@.len() - i,
    {
        match parse_doc_id(refs[i].doc_id.as_str()) {
            Some(id) => match see(idx, &id, scope) {
                Some(d) => {
                    if (refs[i].variant as usize) < d.variants.len() {
                        let ghost before = slim_views(out@);
                        let row: VariantPayloadSlim = slim_row(
                            d,
                            &refs[i].doc_id,
                            refs[i].variant,
                        );
                        let ghost added = row@;
                        out.push(row);
                        proof {
                            assert(slim_views(out@) =~= before.push(added));
                        }
                    }
                },
                None => {},
            },
            None => {},
        }
        i += 1;
    }
    out
}

// ---------------------------------------------------------------------
// Suggestions
// ---------------------------------------------------------------------

/// How many suggestions are given: what was asked for, `usual` where
/// nothing was, and `most` at most.
pub open spec fn capped(limit: Option<u32>, usual: u32, most: u32) -> int {
    let asked = match limit {
        Some(n) => n,
        None => usual,
    };
    if asked < most {
        asked as int
    } else {
        most as int
    }
}

/// Never more than the most are given, what was asked for where it is
/// less, and the usual number where nothing was asked for.
pub proof fn caps_hold(limit: Option<u32>, usual: u32, most: u32)
    ensures
        capped(limit, usual, most) <= most,
        limit matches Some(n) ==> n <= most ==> capped(limit, usual, most) == n,
        limit is None && usual <= most ==> capped(limit, usual, most) == usual,
        limit matches Some(n) ==> n >= most ==> capped(limit, usual, most) == most,
{
}

/// How many suggestions are given.
fn cap(limit: Option<u32>, usual: u32, most: u32) -> (r: usize)
    ensures
        r == capped(limit, usual, most),
{
    let asked: u32 = match limit {
        Some(n) => n,
        None => usual,
    };
    if asked < most {
        asked as usize
    } else {
        most as usize
    }
}

/// Whether a suggestion may be made under a scope: one of another
/// manufacturer may not.
pub open spec fn may_suggest(s: FacetSuggestion, scope: Option<Seq<char>>) -> bool {
    field_of(s) == FacetField::Manufacturer ==> in_scope(shown(s), scope)
}

/// Those of the first `n` suggestions that may be made under a scope.
pub open spec fn scoped_suggestions(
    raw: Seq<FacetSuggestion>,
    scope: Option<Seq<char>>,
    n: int,
) -> Seq<FacetSuggestion>
    decreases n,
{
    if n <= 0 {
        Seq::empty()
    } else if may_suggest(raw[n - 1], scope) {
        scoped_suggestions(raw, scope, n - 1).push(raw[n - 1])
    } else {
        scoped_suggestions(raw, scope, n - 1)
    }
}

/// Under a scope no other manufacturer is suggested, and every other
/// suggestion stays, in its order.
pub proof fn scoped_suggestions_are_kept(
    raw: Seq<FacetSuggestion>,
    scope: Option<Seq<char>>,
    n: int,
)
    requires
        0 < n <= raw.len(),
    ensures
        ({
            let before = scoped_suggestions(raw, scope, n - 1);
            let foreign = field_of(raw[n - 1]) == FacetField::Manufacturer && !in_scope(
                shown(raw[n - 1]),
                scope,
            );
            &&& foreign ==> scoped_suggestions(raw, scope, n) == before
            &&& !foreign ==> scoped_suggestions(raw, scope, n) == before + seq![raw[n - 1]]
        }),
        scoped_suggestions(raw, scope, 0).len() == 0,
{
    let before = scoped_suggestions(raw, scope, n - 1);
    assert(before.push(raw[n - 1]) =~= before + seq![raw[n - 1]]);
}

/// Facet values that hold what was typed, within a scope.
pub fn suggest_facets(
    idx: &InMemoryIndex,
    prefix: &str,
    limit: Option<u32>,
    scope: Option<&String>,
) -> (r: Vec<FacetSuggestion>)
    requires
        idx.well_formed(),
    ensures
        exists|t: Seq<FacetSuggestion>, raw: Seq<FacetSuggestion>|
            is_suggest_table(t, idx.corpus()) && #[trigger] suggests_facets(
                raw,
                t,
                prefix@,
                capped(limit, 10, 30),
            ) && r@ == scoped_suggestions(raw, scope_text(scope), raw.len() as int),
{
    let raw: Vec<FacetSuggestion> = idx.suggest_facets(prefix, cap(limit, 10, 30));
    let mut out: Vec<FacetSuggestion> = Vec::new();
    let mut i: usize = 0;
    while i < raw.len()
        invariant
            i <= raw@.len(),
            out@ == scoped_suggestions(raw@, scope_text(scope), i as int),
        decreases raw@.len() - i,
    {
        let keep: bool = match &raw[i] {
            FacetSuggestion::Manufacturer { value, count: _ } => is_in_scope(
                value.as_str(),
                scope,
            ),
            _ => true,
        };
        if keep {
            out.push(raw[i].copy());
        }
        i += 1;
    }
    out
}

/// Those of the first `n` article numbers that are within a scope.
pub open spec fn scoped_articles(
    raw: Seq<ArticleSuggestion>,
    scope: Option<Seq<char>>,
    n: int,
) -> Seq<ArticleSuggestion>
    decreases n,
{
    if n <= 0 {
        Seq::empty()
    } else if in_scope(raw[n - 1].manufacturer@, scope) {
        scoped_articles(raw, scope, n - 1).push(raw[n - 1])
    } else {
        scoped_articles(raw, scope, n - 1)
    }
}

/// A payload holds the document as it is and the name of its source, and
/// nothing of it where the document came from neither a path nor an
/// address.
pub proof fn payloads_hold_their_document(d: DocView)
    ensures
        payload_of(d).0 == d,
        d.source matches SourceView::Path(p) ==> payload_of(d).1 == Some(p),
        d.source matches SourceView::Url(u) ==> payload_of(d).1 == Some(u),
        d.source is ContentOnly ==> payload_of(d).1 is None,
{
}

/// Each requested document that is there and within the scope is given,
/// in the order of the requests, and so is each document that an article
/// number finds.
pub proof fn payloads_answer_requests(
    docs: Seq<DocView>,
    at: Map<Seq<u8>, int>,
    ids: Seq<Seq<char>>,
    found: Seq<int>,
    scope: Option<Seq<char>>,
    n: int,
)
    requires
        0 < n,
    ensures
        n <= ids.len() ==> {
            let id = parsed_id(ids[n - 1]);
            let before = requested_payloads(docs, at, ids, scope, n - 1);
            let there = id is Some && at.contains_key(id->0) && in_scope(
                docs[at[id->0]].manufacturer,
                scope,
            );
            &&& there ==> requested_payloads(docs, at, ids, scope, n) == before + seq![
                payload_of(docs[at[id->0]]),
            ]
            &&& !there ==> requested_payloads(docs, at, ids, scope, n) == before
        },
        n <= found.len() ==> {
            let d = docs[found[n - 1]];
            let before = scoped_payloads(docs, found, scope, n - 1);
            &&& in_scope(d.manufacturer, scope) ==> scoped_payloads(docs, found, scope, n) == before
                + seq![payload_of(d)]
            &&& !in_scope(d.manufacturer, scope) ==> scoped_payloads(docs, found, scope, n)
                == before
        },
{
    if n <= ids.len() {
        let before = requested_payloads(docs, at, ids, scope, n - 1);
        if let Some(d) = requested_doc(docs, at, ids[n - 1], scope) {
            assert(before.push(payload_of(d)) =~= before + seq![payload_of(d)]);
        }
    }
    if n <= found.len() {
        let d = docs[found[n - 1]];
        let before = scoped_payloads(docs, found, scope, n - 1);
        assert(before.push(payload_of(d)) =~= before + seq![payload_of(d)]);
    }
}

/// Under a scope the article numbers of other manufacturers are left out,
/// and all others stay, in their order.
pub proof fn scoped_articles_are_kept(raw: Seq<ArticleSuggestion>, scope: Option<Seq<char>>, n: int)
    requires
        0 < n <= raw.len(),
    ensures
        ({
            let before = scoped_articles(raw, scope, n - 1);
            let own = in_scope(raw[n - 1].manufacturer@, scope);
            &&& own ==> scoped_articles(raw, scope, n) == before + seq![raw[n - 1]]
            &&& !own ==> scoped_articles(raw, scope, n) == before
        }),
        scoped_articles(raw, scope, 0).len() == 0,
{
    let before = scoped_articles(raw, scope, n - 1);
    assert(before.push(raw[n - 1]) =~= before + seq![raw[n - 1]]);
}

/// Article numbers by prefix, within a scope.
pub fn suggest_articles(
    idx: &InMemoryIndex,
    prefix: &str,
    limit: Option<u32>,
    scope: Option<&String>,
) -> (r: Vec<ArticleSuggestion>)
    requires
        idx.well_formed(),
    ensures
        exists|raw: Seq<ArticleSuggestion>|
            #[trigger] suggests_articles(raw, idx.corpus(), prefix@, capped(limit, 20, 50)) && r@
                == scoped_articles(raw, scope_text(scope), raw.len() as int),
{
    let raw: Vec<ArticleSuggestion> = idx.suggest_articles(prefix, cap(limit, 20, 50));
    let mut out: Vec<ArticleSuggestion> = Vec::new();
    let mut i: usize = 0;
    while i < raw.len()
        invariant
            i <= raw@.len(),
            out@ == scoped_articles(raw@, scope_text(scope), i as int),
        decreases raw@.len() - i,
    {
        if is_in_scope(raw[i].manufacturer.as_str(), scope) {
            out.push(
                ArticleSuggestion {
                    article: raw[i].article.clone(),
                    manufacturer: raw[i].manufacturer.clone(),
                    product: raw[i].product.clone(),
                },
            );
        }
        i += 1;
    }
    out
}

// ---------------------------------------------------------------------
// Files
// ---------------------------------------------------------------------

/// The file to open for a variant: in a folded document the one that the
/// variant came from, else that of the document.
pub open spec fn variant_source(d: DocView, index: Option<u16>) -> SourceView {
    if index is Some && d.source_paths.len() > 1 && index->0 < d.variants.len()
        && d.variants[index->0 as int].source_index < d.source_paths.len() {
        d.source_paths[d.variants[index->0 as int].source_index as int]
    } else {
        d.source
    }
}

/// The file to open for a variant.
pub fn resolve_variant_source(d: &LuminaireDoc, index: Option<u16>) -> (r: SourceRef)
    ensures
        r@ == variant_source(d@, index),
{
    match index {
        Some(i) => {
            if d.source_paths.len() > 1 && (i as usize) < d.variants.len() {
                let v: &VariantDoc = &d.variants[i as usize];
                proof {
                    assert(d@.variants[i as int] == v@);
                }
                let s: usize = v.source_index as usize;
                if s < d.source_paths.len() {
                    proof {
                        assert(source_views(d.source_paths@)[s as int]
                            == d.source_paths@[s as int]@);
                    }
                    return d.source_paths[s].copy();
                }
            }
        },
        None => {},
    }
    d.source.copy()
}

/// A file below the corpus root, and the variant to look for in it; none
/// for the first file that it holds.
#[derive(Debug)]
pub struct FileRequest {
    /// Path below the corpus root.
    pub rel: String,
    /// Position of the variant.
    pub variant: Option<usize>,
}

/// What is to be opened for a variant of a document; nothing where the
/// source is no path. In a folded document the file is the variant's
/// own, and the first one in it is meant.
pub open spec fn file_request(d: DocView, index: Option<u16>) -> Option<(Seq<char>, Option<usize>)> {
    match variant_source(d, index) {
        SourceView::Path(p) => Some(
            (
                p,
                if d.source_paths.len() > 1 {
                    None
                } else {
                    match index {
                        Some(i) => Some(i as usize),
                        None => None,
                    }
                },
            ),
        ),
        _ => None,
    }
}

/// In a folded document the file of a variant is the one that it came
/// from, and the first one in it is meant. In a document of one file it
/// is that file, and the variant is meant by its position. What came from
/// elsewhere than a path cannot be opened.
pub proof fn variants_are_opened_where_they_came_from(d: DocView, i: u16)
    requires
        i < d.variants.len(),
    ensures
        d.source_paths.len() > 1 && d.variants[i as int].source_index < d.source_paths.len()
            ==> variant_source(d, Some(i))
            == d.source_paths[d.variants[i as int].source_index as int],
        d.source_paths.len() <= 1 ==> variant_source(d, Some(i)) == d.source,
        variant_source(d, None) == d.source,
        variant_source(d, Some(i)) matches SourceView::Path(p) ==> file_request(d, Some(i)) == Some(
            (
                p,
                if d.source_paths.len() > 1 {
                    None
                } else {
                    Some(i as usize)
                },
            ),
        ),
        !(variant_source(d, Some(i)) is Path) ==> file_request(d, Some(i)) is None,
        d.source matches SourceView::Path(p) ==> file_request(d, None) == Some(
            (p, None::<usize>),
        ),
{
}

/// What is to be opened for a variant of the document with a given id.
pub fn locate_file(
    idx: &InMemoryIndex,
    id_hex: &str,
    index: Option<u16>,
    scope: Option<&String>,
) -> (r: Result<Option<FileRequest>, ApiError>)
    requires
        idx.well_formed(),
    ensures
        ({
            let d = requested_doc(idx.corpus(), idx.positions(), id_hex@, scope_text(scope));
            match r {
                Ok(Some(f)) => d is Some && file_request(d->0, index) == Some((f.rel@, f.variant)),
                Ok(None) => parsed_id(id_hex@) is Some && (d is None || file_request(d->0, index)
                    is None),
                Err(e) => e == ApiError::InvalidDocId && parsed_id(id_hex@) is None,
            }
        }),
{
    let id: DocId = match parse_doc_id(id_hex) {
        Some(id) => id,
        None => {
            return Err(ApiError::InvalidDocId);
        },
    };
    match see(idx, &id, scope) {
        Some(d) => {
            match resolve_variant_source(d, index) {
                SourceRef::Path(rel) => {
                    let variant: Option<usize> = if d.source_paths.len() > 1 {
                        None
                    } else {
                        match index {
                            Some(i) => Some(i as usize),
                            None => None,
                        }
                    };
                    Ok(Some(FileRequest { rel, variant }))
                },
                _ => Ok(None),
            }
        },
        None => Ok(None),
    }
}

/// An image in a form that fits into a page.
#[derive(Debug)]
pub struct ProductImage {
    /// Content type.
    pub mime: String,
    /// The bytes in base64.
    pub data_base64: String,
}

/// The digit of base64 for a number below sixty-four.
pub open spec fn base64_digit(n: int) -> char {
    if n < 26 {
        ('A' as u32 + n) as char
    } else if n < 52 {
        ('a' as u32 + (n - 26)) as char
    } else if n < 62 {
        ('0' as u32 + (n - 52)) as char
    } else if n == 62 {
        '+'
    } else {
        '/'
    }
}

/// Bytes in base64: four digits for three bytes, filled up with equals
/// signs at the end.
pub open spec fn base64_text(b: Seq<u8>) -> Seq<char>
    decreases b.len(),
{
    if b.len() == 0 {
        Seq::empty()
    } else if b.len() == 1 {
        seq![base64_digit(b[0] as int / 4), base64_digit(b[0] as int % 4 * 16), '=', '=']
    } else if b.len() == 2 {
        seq![
            base64_digit(b[0] as int / 4),
            base64_digit(b[0] as int % 4 * 16 + b[1] as int / 16),
            base64_digit(b[1] as int % 16 * 4),
            '=',
        ]
    } else {
        seq![
            base64_digit(b[0] as int / 4),
            base64_digit(b[0] as int % 4 * 16 + b[1] as int / 16),
            base64_digit(b[1] as int % 16 * 4 + b[2] as int / 64),
            base64_digit(b[2] as int % 64),
        ] + base64_text(b.skip(3))
    }
}

/// Calls `encode` of the standard engine of `base64`: the usual digits,
/// with padding.
#[verifier::external_body]
fn encode_base64(bytes: &[u8]) -> (r: String)
    ensures
        r@ == base64_text(bytes@),
{
    base64::engine::general_purpose::STANDARD.encode(bytes)
}

/// An image in a form that fits into a page.
pub fn product_image(mime: String, bytes: &[u8]) -> (r: ProductImage)
    ensures
        r.mime@ == mime@,
        r.data_base64@ == base64_text(bytes@),
{
    ProductImage { mime, data_base64: encode_base64(bytes) }
}

/// The address of an image that stands in the page itself.
pub fn data_url(image: &ProductImage) -> (r: String)
    ensures
        r@ == "data:"@ + image.mime@ + ";base64,"@ + image.data_base64@,
{
    let mut r: String = owned("data:");
    push_text(&mut r, image.mime.as_str());
    push_text(&mut r, ";base64,");
    push_text(&mut r, image.data_base64.as_str());
    r
}

} // verus!
