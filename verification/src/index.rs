//! The search index over a corpus of documents.

use crate::articles::{
    article_docs, article_entries, build_article_map, build_entries, entry_views, look_up,
    maps_articles, suggests_articles, ArticleEntry, ArticleSuggestion,
};
use crate::bounds::{are_bounds, bounds_of};
use crate::doc::{doc_views, DocId, DocView, LuminaireDoc};
use crate::facets::{
    assign_counts, count_one_facet, counts_of, facet_list, relaxed, FacetCounts, FacetField,
    FacetValueCount, RangeBounds,
};
use crate::filter::Filter;
use crate::fold::{
    aliases_lead_to_families, aliases_of, every_identity_has_an_alias, families, families_are_exact,
    family_of, fold_docs, folded_id, identities_lead_to_their_family, is_family_doc, is_folding,
    log_map, members, Aliases, FoldStats,
};
use crate::hex::{hex_is_injective, hex_of, hex_text};
use crate::hits::{all_hits, hit_views, page_of, search_docs, variant_total, Pagination, SearchResult};
use crate::slug::{manufacturer_of, resolve};
use crate::suggest::{
    are_lowered, build_table, is_suggest_table, lower_values, suggests_facets, FacetSuggestion,
};
use crate::text::opt_text;
use vstd::hash_map::StringHashMap;
use vstd::prelude::*;

verus! {

// ---------------------------------------------------------------------
// Identities to positions
// ---------------------------------------------------------------------

/// The position of each identity; where two documents share one, that
/// of the later.
pub open spec fn last_positions(docs: Seq<DocView>) -> Map<Seq<u8>, int>
    decreases docs.len(),
{
    if docs.len() == 0 {
        Map::empty()
    } else {
        last_positions(docs.drop_last()).insert(docs.last().id, docs.len() - 1)
    }
}

/// The position of each identity; where two documents share one, that
/// of the earlier.
pub open spec fn first_positions(docs: Seq<DocView>) -> Map<Seq<u8>, int>
    decreases docs.len(),
{
    if docs.len() == 0 {
        Map::empty()
    } else {
        let front = first_positions(docs.drop_last());
        if front.contains_key(docs.last().id) {
            front
        } else {
            front.insert(docs.last().id, docs.len() - 1)
        }
    }
}

/// The positions that aliases lead to.
pub open spec fn alias_positions(
    aliases: Map<Seq<u8>, Seq<u8>>,
    canonical: Map<Seq<u8>, int>,
) -> Map<Seq<u8>, int> {
    Map::new(
        |k: Seq<u8>| aliases.contains_key(k) && canonical.contains_key(aliases[k]),
        |k: Seq<u8>| canonical[aliases[k]],
    )
}

/// The position of each identity where aliases lead the way: where its
/// alias leads, else that of the first document with it.
pub open spec fn resolved_positions(
    docs: Seq<DocView>,
    aliases: Map<Seq<u8>, Seq<u8>>,
) -> Map<Seq<u8>, int> {
    first_positions(docs).union_prefer_right(alias_positions(aliases, last_positions(docs)))
}

/// The positions that a map over hexadecimal texts holds.
spec fn hex_map(m: Map<Seq<char>, usize>) -> Map<Seq<u8>, int> {
    Map::new(
        |k: Seq<u8>| k.len() == 32 && m.contains_key(hex_text(k)),
        |k: Seq<u8>| m[hex_text(k)] as int,
    )
}

proof fn hex_map_insert(m: Map<Seq<char>, usize>, id: Seq<u8>, i: usize)
    requires
        id.len() == 32,
    ensures
        hex_map(m.insert(hex_text(id), i)) == hex_map(m).insert(id, i as int),
{
    let a = hex_map(m.insert(hex_text(id), i));
    let b = hex_map(m).insert(id, i as int);
    assert forall|k: Seq<u8>| a.contains_key(k) <==> b.contains_key(k) by {
        if k.len() == 32 && hex_text(k) == hex_text(id) {
            hex_is_injective(k, id);
        }
    }
    assert forall|k: Seq<u8>| a.contains_key(k) implies a[k] == b[k] by {
        if hex_text(k) == hex_text(id) {
            hex_is_injective(k, id);
        }
    }
    assert(a =~= b);
}

/// What `last_positions` holds: the identities of the documents, each
/// with the position of one that has it.
pub proof fn last_positions_exact(docs: Seq<DocView>)
    ensures
        forall|id: Seq<u8>| #[trigger]
            last_positions(docs).contains_key(id) ==> 0 <= last_positions(docs)[id] < docs.len()
                && docs[last_positions(docs)[id]].id == id,
        forall|i: int| 0 <= i < docs.len() ==> last_positions(docs).contains_key((#[trigger] docs[i]).id),
    decreases docs.len(),
{
    if docs.len() > 0 {
        let front = docs.drop_last();
        last_positions_exact(front);
        assert forall|id: Seq<u8>| #[trigger] last_positions(docs).contains_key(id) implies 0
            <= last_positions(docs)[id] < docs.len() && docs[last_positions(docs)[id]].id == id by {
            if id != docs.last().id {
                assert(last_positions(front).contains_key(id));
                assert(front[last_positions(front)[id]] == docs[last_positions(front)[id]]);
            }
        }
        assert forall|i: int| 0 <= i < docs.len() implies last_positions(docs).contains_key(
            (#[trigger] docs[i]).id,
        ) by {
            if i < front.len() {
                assert(front[i] == docs[i]);
            }
        }
    }
}

/// What `first_positions` holds.
pub proof fn first_positions_exact(docs: Seq<DocView>)
    ensures
        forall|id: Seq<u8>| #[trigger]
            first_positions(docs).contains_key(id) ==> 0 <= first_positions(docs)[id] < docs.len()
                && docs[first_positions(docs)[id]].id == id,
        forall|i: int|
            0 <= i < docs.len() ==> first_positions(docs).contains_key((#[trigger] docs[i]).id),
    decreases docs.len(),
{
    if docs.len() > 0 {
        let front = docs.drop_last();
        first_positions_exact(front);
        assert forall|id: Seq<u8>| #[trigger] first_positions(docs).contains_key(id) implies 0
            <= first_positions(docs)[id] < docs.len() && docs[first_positions(docs)[id]].id == id by {
            if first_positions(front).contains_key(id) {
                assert(front[first_positions(front)[id]] == docs[first_positions(front)[id]]);
            }
        }
        assert forall|i: int| 0 <= i < docs.len() implies first_positions(docs).contains_key(
            (#[trigger] docs[i]).id,
        ) by {
            if i < front.len() {
                assert(front[i] == docs[i]);
            }
        }
    }
}

/// Of several documents with one identity the last has it in one map and
/// the first in the other.
pub proof fn shared_identities_go_to_the_ends(docs: Seq<DocView>, i: int)
    requires
        0 <= i < docs.len(),
    ensures
        last_positions(docs)[docs[i].id] >= i,
        first_positions(docs)[docs[i].id] <= i,
    decreases docs.len(),
{
    first_positions_exact(docs);
    if docs.last().id != docs[i].id {
        assert(docs.drop_last()[i] == docs[i]);
        shared_identities_go_to_the_ends(docs.drop_last(), i);
        first_positions_exact(docs.drop_last());
        assert(first_positions(docs.drop_last()).contains_key(docs.drop_last()[i].id));
    } else {
        first_positions_exact(docs.drop_last());
        if i < docs.len() - 1 {
            assert(docs.drop_last()[i] == docs[i]);
            shared_identities_go_to_the_ends(docs.drop_last(), i);
            assert(first_positions(docs.drop_last()).contains_key(docs.drop_last()[i].id));
        }
    }
}

/// An identity leads to the document that its alias names, where there is
/// one, and else to the first document that has it; it leads nowhere
/// where neither is there.
pub proof fn aliases_lead_the_way(
    docs: Seq<DocView>,
    aliases: Map<Seq<u8>, Seq<u8>>,
    id: Seq<u8>,
)
    ensures
        ({
            let m = resolved_positions(docs, aliases);
            let named = aliases.contains_key(id) && exists|i: int|
                0 <= i < docs.len() && (#[trigger] docs[i]).id == aliases[id];
            let own = exists|i: int| 0 <= i < docs.len() && (#[trigger] docs[i]).id == id;
            &&& m.contains_key(id) <==> named || own
            &&& named ==> 0 <= m[id] < docs.len() && docs[m[id]].id == aliases[id]
            &&& !named && own ==> 0 <= m[id] < docs.len() && docs[m[id]].id == id && forall|i: int|
                0 <= i < m[id] ==> (#[trigger] docs[i]).id != id
        }),
{
    last_positions_exact(docs);
    first_positions_exact(docs);
    let m = resolved_positions(docs, aliases);
    let named = aliases.contains_key(id) && exists|i: int|
        0 <= i < docs.len() && (#[trigger] docs[i]).id == aliases[id];
    let own = exists|i: int| 0 <= i < docs.len() && (#[trigger] docs[i]).id == id;
    assert(named <==> aliases.contains_key(id) && last_positions(docs).contains_key(aliases[id]));
    assert(own <==> first_positions(docs).contains_key(id));
    if !named && own {
        assert forall|i: int| 0 <= i < m[id] implies (#[trigger] docs[i]).id != id by {
            if docs[i].id == id {
                shared_identities_go_to_the_ends(docs, i);
            }
        }
    }
}

/// With distinct identities, every document is found by its own.
pub proof fn distinct_identities_find_their_doc(docs: Seq<DocView>, i: int)
    requires
        0 <= i < docs.len(),
        forall|a: int, b: int|
            0 <= a < b < docs.len() ==> (#[trigger] docs[a]).id != (#[trigger] docs[b]).id,
    ensures
        last_positions(docs).contains_key(docs[i].id),
        last_positions(docs)[docs[i].id] == i,
{
    last_positions_exact(docs);
    let p = last_positions(docs)[docs[i].id];
    assert(docs[p].id == docs[i].id);
}

/// The identity of a folded document.
proof fn family_doc_identity(d: DocView, family: (Seq<char>, Seq<char>), group: Seq<DocView>)
    requires
        is_family_doc(d, family, group),
    ensures
        d.id == folded_id(family, group),
{
}

/// After folding, every identity that a document had resolves.
pub proof fn folded_identities_resolve(out: Seq<DocView>, docs: Seq<DocView>, i: int)
    requires
        is_folding(out, docs),
        0 <= i < docs.len(),
    ensures
        resolved_positions(out, aliases_of(docs, families(docs).len() as int)).contains_key(
            docs[i].id,
        ),
{
    let n = families(docs).len() as int;
    let aliases = aliases_of(docs, n);
    every_identity_has_an_alias(docs, i);
    aliases_lead_to_families(docs, n, docs[i].id);
    let g = choose|g: int|
        0 <= g < n && aliases[docs[i].id] == folded_id(
            #[trigger] families(docs)[g],
            members(docs, families(docs)[g]),
        );
    family_doc_identity(out[g], families(docs)[g], members(docs, families(docs)[g]));
    last_positions_exact(out);
    assert(last_positions(out).contains_key(out[g].id));
}

/// After folding, the identity that a document had leads to what its
/// family folded into, where no other family has that identity and no
/// other folded document that of the family.
pub proof fn folded_identities_lead_home(out: Seq<DocView>, docs: Seq<DocView>, g: int, i: int)
    requires
        is_folding(out, docs),
        0 <= g < out.len(),
        0 <= i < docs.len(),
        families(docs)[g] == family_of(docs[i]),
        forall|j: int|
            0 <= j < docs.len() && (#[trigger] docs[j]).id == docs[i].id ==> family_of(docs[j])
                == family_of(docs[i]),
        forall|h: int| 0 <= h < out.len() && h != g ==> (#[trigger] out[h]).id != docs[i].id,
        forall|h: int| 0 <= h < out.len() && h != g ==> (#[trigger] out[h]).id != out[g].id,
    ensures
        resolved_positions(out, aliases_of(docs, families(docs).len() as int)).contains_key(
            docs[i].id,
        ),
        resolved_positions(out, aliases_of(docs, families(docs).len() as int))[docs[i].id] == g,
{
    let fams = families(docs);
    let n = fams.len() as int;
    assert forall|h: int| 0 <= h < n && h != g implies folded_id(
        #[trigger] fams[h],
        members(docs, fams[h]),
    ) != docs[i].id by {
        family_doc_identity(out[h], fams[h], members(docs, fams[h]));
    }
    identities_lead_to_their_family(docs, g, i);
    family_doc_identity(out[g], fams[g], members(docs, fams[g]));
    last_positions_exact(out);
    assert(last_positions(out).contains_key(out[g].id));
}

// ---------------------------------------------------------------------
// The index
// ---------------------------------------------------------------------

/// What every index answers.
pub trait IndexSource {
    /// The documents.
    spec fn corpus(&self) -> Seq<DocView>;

    /// Where each identity leads.
    spec fn positions(&self) -> Map<Seq<u8>, int>;

    /// Whether the index is as its constructors leave it.
    spec fn well_formed(&self) -> bool;

    /// The hits of one page, and the number of all hits.
    fn search(&self, filter: &Filter, page: Pagination) -> (r: SearchResult)
        requires
            self.well_formed(),
        ensures
            hit_views(r.hits@) == page_of(all_hits(filter@, self.corpus()), page),
            r.total == all_hits(filter@, self.corpus()).len() % 0x1_0000_0000,
    ;

    /// The counts of the given fields, each with that field relaxed.
    fn facets(&self, filter: &Filter, fields: &[FacetField]) -> (r: FacetCounts)
        requires
            self.well_formed(),
        ensures
            forall|field: FacetField|
                fields@.contains(field) ==> facet_list(
                    #[trigger] counts_of(r, field),
                    self.corpus(),
                    relaxed(filter@, field),
                    field,
                ),
            forall|field: FacetField|
                !fields@.contains(field) ==> (#[trigger] counts_of(r, field)).len() == 0,
    ;

    /// The spans of the measurements, each with its range relaxed.
    fn range_bounds(&self, filter: &Filter) -> (r: RangeBounds)
        requires
            self.well_formed(),
        ensures
            are_bounds(r, self.corpus(), filter@),
    ;

    /// The document that an identity leads to.
    fn doc(&self, id: &DocId) -> (r: Option<&LuminaireDoc>)
        requires
            self.well_formed(),
        ensures
            match r {
                Some(d) => self.positions().contains_key(id@) && 0 <= self.positions()[id@]
                    < self.corpus().len() && d@ == self.corpus()[self.positions()[id@]],
                None => !self.positions().contains_key(id@),
            },
    ;

    /// The documents that an article number finds.
    fn lookup_article(&self, article: &str) -> (r: Vec<&LuminaireDoc>)
        requires
            self.well_formed(),
        ensures
            r@.len() == article_docs(self.corpus(), article@).len(),
            forall|k: int|
                0 <= k < r@.len() ==> (#[trigger] r@[k])@ == self.corpus()[article_docs(
                    self.corpus(),
                    article@,
                )[k]],
    ;

    /// Article numbers by prefix.
    fn suggest_articles(&self, prefix: &str, limit: usize) -> (r: Vec<ArticleSuggestion>)
        requires
            self.well_formed(),
        ensures
            suggests_articles(r@, self.corpus(), prefix@, limit as int),
    ;

    /// Facet values that hold what was typed.
    fn suggest_facets(&self, prefix: &str, limit: usize) -> (r: Vec<FacetSuggestion>)
        requires
            self.well_formed(),
        ensures
            exists|t: Seq<FacetSuggestion>| #[trigger]
                is_suggest_table(t, self.corpus()) && suggests_facets(
                    r@,
                    t,
                    prefix@,
                    limit as int,
                ),
    ;
}

/// The index that holds its documents in memory and scans them.
pub struct InMemoryIndex {
    docs: Vec<LuminaireDoc>,
    by_id: StringHashMap<usize>,
    by_article: StringHashMap<Vec<usize>>,
    articles: Vec<ArticleEntry>,
    facet_suggest: Vec<FacetSuggestion>,
    facet_suggest_lower: Vec<String>,
}

/// The position of each identity, by its hexadecimal text.
fn build_last_positions(docs: &Vec<LuminaireDoc>) -> (m: StringHashMap<usize>)
    ensures
        hex_map(m@) == last_positions(doc_views(docs@)),
{
    let ghost views = doc_views(docs@);
    let mut m: StringHashMap<usize> = StringHashMap::new();
    let mut i: usize = 0;
    proof {
        assert(hex_map(m@) =~= last_positions(views.take(0)));
    }
    while i < docs.len()
        invariant
            i <= docs@.len(),
            views == doc_views(docs@),
            hex_map(m@) == last_positions(views.take(i as int)),
        decreases docs@.len() - i,
    {
        proof {
            assert(views.take(i + 1).drop_last() =~= views.take(i as int));
            assert(views.take(i + 1).last() == docs@[i as int]@);
            hex_map_insert(m@, docs@[i as int].id@, i);
        }
        m.insert(hex_of(&docs[i].id), i);
        i += 1;
    }
    proof {
        assert(views.take(views.len() as int) =~= views);
    }
    m
}

/// The position of each identity with aliases, by its hexadecimal text.
fn build_resolved_positions(docs: &Vec<LuminaireDoc>, aliases: &Aliases) -> (m: StringHashMap<
    usize,
>)
    requires
        aliases.well_formed(),
    ensures
        hex_map(m@) == resolved_positions(doc_views(docs@), aliases@),
{
    let ghost views = doc_views(docs@);
    let canonical: StringHashMap<usize> = build_last_positions(docs);
    let mut m: StringHashMap<usize> = StringHashMap::new();
    let mut i: usize = 0;
    proof {
        assert(hex_map(m@) =~= first_positions(views.take(0)));
    }
    while i < docs.len()
        invariant
            i <= docs@.len(),
            views == doc_views(docs@),
            hex_map(m@) == first_positions(views.take(i as int)),
        decreases docs@.len() - i,
    {
        let key: String = hex_of(&docs[i].id);
        proof {
            assert(views.take(i + 1).drop_last() =~= views.take(i as int));
            assert(views.take(i + 1).last() == docs@[i as int]@);
            hex_map_insert(m@, docs@[i as int].id@, i);
            assert(hex_map(m@).contains_key(docs@[i as int].id@) == m@.contains_key(key@));
        }
        if !m.contains_key(key.as_str()) {
            m.insert(key, i);
        }
        i += 1;
    }
    let ghost first = first_positions(views);
    let ghost settings = aliases.settings_view();
    let ghost whole = alias_positions(aliases@, last_positions(views));
    proof {
        assert(views.take(views.len() as int) =~= views);
        aliases.settings_leave_the_map();
        assert(settings.take(0) =~= Seq::empty());
        assert(first.union_prefer_right(whole.restrict(log_map(settings.take(0)).dom())) =~= first);
    }
    let mut k: usize = 0;
    while k < aliases.settings()
        invariant
            k <= settings.len(),
            aliases.well_formed(),
            settings == aliases.settings_view(),
            aliases@ == log_map(settings),
            views == doc_views(docs@),
            hex_map(canonical@) == last_positions(views),
            whole == alias_positions(aliases@, last_positions(views)),
            hex_map(m@) == first.union_prefer_right(
                whole.restrict(log_map(settings.take(k as int)).dom()),
            ),
        decreases settings.len() - k,
    {
        let from: DocId = aliases.setting(k).0;
        let ghost before = log_map(settings.take(k as int)).dom();
        let ghost after = log_map(settings.take(k + 1)).dom();
        let ghost held = hex_map(m@);
        proof {
            assert(settings.take(k + 1).drop_last() =~= settings.take(k as int));
            assert(settings.take(k + 1).last() == settings[k as int]);
            assert(after =~= before.insert(from@));
        }
        let to: Option<DocId> = aliases.get(&from);
        match to {
            Some(family) => {
                let key: String = hex_of(&family);
                proof {
                    assert(hex_map(canonical@).contains_key(family@) == canonical@.contains_key(
                        key@,
                    ));
                }
                match canonical.get(key.as_str()) {
                    Some(at) => {
                        proof {
                            hex_map_insert(m@, from@, *at);
                            assert(hex_map(canonical@)[family@] == *at as int);
                            assert(whole.contains_key(from@));
                            assert(whole[from@] == *at as int);
                            assert(held.insert(from@, *at as int) =~= first.union_prefer_right(
                                whole.restrict(after),
                            ));
                        }
                        m.insert(hex_of(&from), *at);
                    },
                    None => {
                        proof {
                            assert(!whole.contains_key(from@));
                            assert(whole.restrict(after) =~= whole.restrict(before));
                        }
                    },
                }
            },
            None => {
                proof {
                    assert(!whole.contains_key(from@));
                    assert(whole.restrict(after) =~= whole.restrict(before));
                }
            },
        }
        k += 1;
    }
    proof {
        assert(settings.take(settings.len() as int) =~= settings);
        assert(whole.restrict(aliases@.dom()) =~= whole);
    }
    m
}

impl InMemoryIndex {
    /// An index over the documents with the given positions.
    fn with_positions(docs: Vec<LuminaireDoc>, by_id: StringHashMap<usize>) -> (r: InMemoryIndex)
        requires
            docs@.len() <= u32::MAX,
            forall|id: Seq<u8>| #[trigger]
                hex_map(by_id@).contains_key(id) ==> 0 <= hex_map(by_id@)[id] < docs@.len(),
        ensures
            r.well_formed(),
            r.corpus() == doc_views(docs@),
            r.positions() == hex_map(by_id@),
    {
        let by_article: StringHashMap<Vec<usize>> = build_article_map(&docs);
        let articles: Vec<ArticleEntry> = build_entries(&docs);
        let facet_suggest: Vec<FacetSuggestion> = build_table(&docs);
        let facet_suggest_lower: Vec<String> = lower_values(&facet_suggest);
        InMemoryIndex { docs, by_id, by_article, articles, facet_suggest, facet_suggest_lower }
    }

    /// An index over the documents, in their order.
    pub fn from_docs(docs: Vec<LuminaireDoc>) -> (r: InMemoryIndex)
        requires
            docs@.len() <= u32::MAX,
        ensures
            r.well_formed(),
            r.corpus() == doc_views(docs@),
            r.positions() == last_positions(doc_views(docs@)),
    {
        let by_id: StringHashMap<usize> = build_last_positions(&docs);
        proof {
            last_positions_exact(doc_views(docs@));
        }
        InMemoryIndex::with_positions(docs, by_id)
    }

    /// An index over folded documents, with the identities that lead to
    /// them.
    fn from_docs_with_aliases(docs: Vec<LuminaireDoc>, aliases: &Aliases) -> (r: InMemoryIndex)
        requires
            docs@.len() <= u32::MAX,
            aliases.well_formed(),
        ensures
            r.well_formed(),
            r.corpus() == doc_views(docs@),
            r.positions() == resolved_positions(doc_views(docs@), aliases@),
    {
        let by_id: StringHashMap<usize> = build_resolved_positions(&docs, aliases);
        proof {
            last_positions_exact(doc_views(docs@));
            first_positions_exact(doc_views(docs@));
            let views = doc_views(docs@);
            let whole = alias_positions(aliases@, last_positions(views));
            assert forall|id: Seq<u8>| #[trigger] hex_map(by_id@).contains_key(id) implies 0
                <= hex_map(by_id@)[id] < docs@.len() by {
                if whole.contains_key(id) {
                    assert(last_positions(views).contains_key(aliases@[id]));
                } else {
                    assert(first_positions(views).contains_key(id));
                }
            }
        }
        InMemoryIndex::with_positions(docs, by_id)
    }

    /// An index over the folded documents. Every identity that a
    /// document had still leads somewhere.
    pub fn from_docs_folded(docs: Vec<LuminaireDoc>) -> (r: (InMemoryIndex, FoldStats))
        requires
            docs@.len() <= u32::MAX,
            variant_total(doc_views(docs@)) <= usize::MAX,
        ensures
            r.0.well_formed(),
            is_folding(r.0.corpus(), doc_views(docs@)),
            r.0.positions() == resolved_positions(
                r.0.corpus(),
                aliases_of(doc_views(docs@), families(doc_views(docs@)).len() as int),
            ),
            forall|i: int|
                0 <= i < docs@.len() ==> r.0.positions().contains_key((#[trigger] docs@[i]).id@),
            r.1.input_docs == docs@.len(),
            r.1.output_docs == r.0.corpus().len(),
            r.1.input_variants == variant_total(doc_views(docs@)),
            r.1.output_variants == variant_total(r.0.corpus()),
            r.1.aliases == aliases_of(
                doc_views(docs@),
                families(doc_views(docs@)).len() as int,
            ).dom().len(),
    {
        let ghost views = doc_views(docs@);
        let (folded, aliases, stats) = fold_docs(docs);
        proof {
            families_are_exact(views);
            crate::fold::folding_keeps_variants(doc_views(folded@), views);
            assert forall|i: int| 0 <= i < docs@.len() implies resolved_positions(
                doc_views(folded@),
                aliases@,
            ).contains_key((#[trigger] docs@[i]).id@) by {
                assert(views[i] == docs@[i]@);
                folded_identities_resolve(doc_views(folded@), views, i);
            }
        }
        let index: InMemoryIndex = InMemoryIndex::from_docs_with_aliases(folded, &aliases);
        (index, stats)
    }

    /// How many documents the index holds.
    pub fn len(&self) -> (r: usize)
        ensures
            r == self.corpus().len(),
    {
        self.docs.len()
    }

    /// Whether the index holds no document.
    pub fn is_empty(&self) -> (r: bool)
        ensures
            r == (self.corpus().len() == 0),
    {
        self.docs.len() == 0
    }

    /// The documents.
    pub fn docs(&self) -> (r: &Vec<LuminaireDoc>)
        ensures
            doc_views(r@) == self.corpus(),
    {
        &self.docs
    }

    /// The manufacturer that a slug names, spelled as in the documents.
    pub fn resolve_manufacturer(&self, slug: &str) -> (r: Option<String>)
        ensures
            opt_text(r) == manufacturer_of(self.corpus(), slug@),
    {
        resolve(&self.docs, slug)
    }
}

impl IndexSource for InMemoryIndex {
    closed spec fn corpus(&self) -> Seq<DocView> {
        doc_views(self.docs@)
    }

    closed spec fn positions(&self) -> Map<Seq<u8>, int> {
        hex_map(self.by_id@)
    }

    closed spec fn well_formed(&self) -> bool {
        let views = doc_views(self.docs@);
        &&& self.docs@.len() <= u32::MAX
        &&& forall|id: Seq<u8>| #[trigger]
            hex_map(self.by_id@).contains_key(id) ==> 0 <= hex_map(self.by_id@)[id]
                < self.docs@.len()
        &&& maps_articles(self.by_article@, views)
        &&& entry_views(self.articles@) == article_entries(views)
        &&& is_suggest_table(self.facet_suggest@, views)
        &&& are_lowered(self.facet_suggest_lower@, self.facet_suggest@)
    }

    fn search(&self, filter: &Filter, page: Pagination) -> SearchResult {
        search_docs(&self.docs, filter, page)
    }

    fn facets(&self, filter: &Filter, fields: &[FacetField]) -> FacetCounts {
        let mut out: FacetCounts = FacetCounts::default();
        let ghost views = self.corpus();
        let mut i: usize = 0;
        while i < fields.len()
            invariant
                i <= fields@.len(),
                self.docs@.len() <= u32::MAX,
                views == doc_views(self.docs@),
                forall|field: FacetField|
                    fields@.take(i as int).contains(field) ==> facet_list(
                        #[trigger] counts_of(out, field),
                        views,
                        relaxed(filter@, field),
                        field,
                    ),
                forall|field: FacetField|
                    !fields@.take(i as int).contains(field) ==> (#[trigger] counts_of(
                        out,
                        field,
                    )).len() == 0,
            decreases fields@.len() - i,
        {
            let field: FacetField = fields[i];
            let ghost before = out;
            let counts: Vec<FacetValueCount> = count_one_facet(&self.docs, filter, field);
            assign_counts(&mut out, field, counts);
            proof {
                let short = fields@.take(i as int);
                let long = fields@.take(i + 1);
                assert(long =~= short.push(field));
                assert forall|g: FacetField| long.contains(g) <==> short.contains(g) || g
                    == field by {
                    if short.contains(g) {
                        let k = choose|k: int| 0 <= k < short.len() && short[k] == g;
                        assert(long[k] == g);
                    }
                    if g == field {
                        assert(long[i as int] == g);
                    }
                }
                assert forall|g: FacetField| long.contains(g) implies facet_list(
                    #[trigger] counts_of(out, g),
                    views,
                    relaxed(filter@, g),
                    g,
                ) by {
                    if g != field {
                        assert(counts_of(out, g) == counts_of(before, g));
                    }
                }
                assert forall|g: FacetField| !long.contains(g) implies (#[trigger] counts_of(
                    out,
                    g,
                )).len() == 0 by {
                    assert(counts_of(out, g) == counts_of(before, g));
                }
            }
            i += 1;
        }
        proof {
            assert(fields@.take(fields@.len() as int) =~= fields@);
        }
        out
    }

    fn range_bounds(&self, filter: &Filter) -> RangeBounds {
        bounds_of(&self.docs, filter)
    }

    fn doc(&self, id: &DocId) -> Option<&LuminaireDoc> {
        let key: String = hex_of(id);
        proof {
            assert(self.positions().contains_key(id@) == self.by_id@.contains_key(key@));
        }
        match self.by_id.get(key.as_str()) {
            Some(at) => {
                proof {
                    assert(self.positions()[id@] == *at as int);
                    assert(self.corpus()[*at as int] == self.docs@[*at as int]@);
                }
                Some(&self.docs[*at])
            },
            None => None,
        }
    }

    fn lookup_article(&self, article: &str) -> Vec<&LuminaireDoc> {
        let r: Vec<&LuminaireDoc> = look_up(&self.docs, &self.by_article, article);
        proof {
            let views = self.corpus();
            crate::articles::docs_with_key_exact(views, crate::articles::article_key(article@));
            assert forall|k: int| 0 <= k < r@.len() implies (#[trigger] r@[k])@ == views[article_docs(
                views,
                article@,
            )[k]] by {
                let found = article_docs(views, article@);
                assert(found.contains(found[k]));
            }
        }
        r
    }

    fn suggest_articles(&self, prefix: &str, limit: usize) -> Vec<ArticleSuggestion> {
        crate::articles::suggest(&self.docs, &self.articles, prefix, limit)
    }

    fn suggest_facets(&self, prefix: &str, limit: usize) -> Vec<FacetSuggestion> {
        proof {
            assert(is_suggest_table(self.facet_suggest@, self.corpus()));
        }
        crate::suggest::suggest(&self.facet_suggest, &self.facet_suggest_lower, prefix, limit)
    }
}

} // verus!
