//! Search hits: every matching variant, page by page.

use crate::doc::{doc_views, DocId, DocView, LuminaireDoc};
use crate::filter::{
    doc_matches, doc_scope_matches, no_predicate_matches_every_variant, open_filter,
    variant_matches, variant_predicate, Filter, FilterView,
};
use vstd::prelude::*;

verus! {

/// A page of a result: how many hits to skip and how many to give.
#[derive(Clone, Copy, PartialEq, Eq, Debug, Structural)]
pub struct Pagination {
    /// Hits to skip.
    pub offset: u32,
    /// Hits to give at most.
    pub limit: u32,
}

impl Default for Pagination {
    /// The first fifty hits.
    fn default() -> (r: Pagination)
        ensures
            r == (Pagination { offset: 0, limit: 50 }),
    {
        Pagination { offset: 0, limit: 50 }
    }
}

/// One matching variant: its document and its position there.
#[derive(Clone, Copy, PartialEq, Eq, Debug)]
pub struct SearchHit {
    /// The document.
    pub doc: DocId,
    /// Position of the variant in the document.
    pub variant: u16,
}

impl View for SearchHit {
    type V = (Seq<u8>, u16);

    open spec fn view(&self) -> (Seq<u8>, u16) {
        (self.doc@, self.variant)
    }
}

/// A page of hits and the number of all hits.
#[derive(PartialEq, Eq, Debug)]
pub struct SearchResult {
    /// The hits of the page.
    pub hits: Vec<SearchHit>,
    /// How many hits there are in all.
    pub total: u32,
}

/// The views of a sequence of hits.
pub open spec fn hit_views(v: Seq<SearchHit>) -> Seq<(Seq<u8>, u16)> {
    v.map_values(|h: SearchHit| h@)
}

/// The hits among the first `n` variants of a document. Positions are
/// held in sixteen bits.
pub open spec fn variant_hits(f: FilterView, d: DocView, n: int) -> Seq<(Seq<u8>, u16)>
    decreases n,
{
    if n <= 0 {
        Seq::empty()
    } else if variant_matches(f, d.variants[n - 1]) {
        variant_hits(f, d, n - 1).push((d.id, ((n - 1) % 65536) as u16))
    } else {
        variant_hits(f, d, n - 1)
    }
}

/// The hits of one document.
pub open spec fn doc_hits(f: FilterView, d: DocView) -> Seq<(Seq<u8>, u16)> {
    if doc_scope_matches(f, d) {
        variant_hits(f, d, d.variants.len() as int)
    } else {
        Seq::empty()
    }
}

/// The hits of several documents, in their order.
pub open spec fn all_hits(f: FilterView, docs: Seq<DocView>) -> Seq<(Seq<u8>, u16)>
    decreases docs.len(),
{
    if docs.len() == 0 {
        Seq::empty()
    } else {
        all_hits(f, docs.drop_last()) + doc_hits(f, docs.last())
    }
}

/// The lesser of two numbers.
pub open spec fn least(a: int, b: int) -> int {
    if a <= b {
        a
    } else {
        b
    }
}

/// The part of `s` that a page shows.
pub open spec fn page_of<T>(s: Seq<T>, page: Pagination) -> Seq<T> {
    let from = least(page.offset as int, s.len() as int);
    s.subrange(from, least(from + page.limit, s.len() as int))
}

/// How many variants several documents have together.
pub open spec fn variant_total(docs: Seq<DocView>) -> nat
    decreases docs.len(),
{
    if docs.len() == 0 {
        0
    } else {
        variant_total(docs.drop_last()) + docs.last().variants.len()
    }
}

// ---------------------------------------------------------------------
// Laws
// ---------------------------------------------------------------------

/// Whether a hit names a variant that matches, of a document that
/// matches.
pub open spec fn names_match(h: (Seq<u8>, u16), f: FilterView, docs: Seq<DocView>) -> bool {
    exists|i: int, j: int| is_match_at(h, f, docs, i, j)
}

/// Whether the `j`th variant of the `i`th document is the one that the
/// hit names, and matches.
pub open spec fn is_match_at(
    h: (Seq<u8>, u16),
    f: FilterView,
    docs: Seq<DocView>,
    i: int,
    j: int,
) -> bool {
    &&& 0 <= i < docs.len()
    &&& 0 <= j < docs[i].variants.len()
    &&& doc_matches(f, docs[i])
    &&& variant_matches(f, docs[i].variants[j])
    &&& h == (docs[i].id, (j % 65536) as u16)
}

/// Every hit among the first `n` variants of a document is a matching
/// one of them.
proof fn variant_hits_sound(f: FilterView, d: DocView, n: int, k: int)
    requires
        0 <= n <= d.variants.len(),
        0 <= k < variant_hits(f, d, n).len(),
    ensures
        exists|j: int|
            0 <= j < n && variant_matches(f, #[trigger] d.variants[j]) && variant_hits(f, d, n)[k]
                == (d.id, (j % 65536) as u16),
    decreases n,
{
    if variant_matches(f, d.variants[n - 1]) && k == variant_hits(f, d, n).len() - 1 {
        assert(variant_matches(f, d.variants[n - 1]));
    } else {
        variant_hits_sound(f, d, n - 1, k);
    }
}

/// Every hit names a matching variant of a matching document.
pub proof fn hits_are_matches(f: FilterView, docs: Seq<DocView>, k: int)
    requires
        0 <= k < all_hits(f, docs).len(),
    ensures
        names_match(all_hits(f, docs)[k], f, docs),
    decreases docs.len(),
{
    let front = all_hits(f, docs.drop_last());
    let h = all_hits(f, docs)[k];
    if k < front.len() {
        hits_are_matches(f, docs.drop_last(), k);
        let (i, j) = choose|i: int, j: int| is_match_at(front[k], f, docs.drop_last(), i, j);
        assert(docs.drop_last()[i] == docs[i]);
        assert(is_match_at(h, f, docs, i, j));
    } else {
        let d = docs.last();
        variant_hits_sound(f, d, d.variants.len() as int, k - front.len());
        let j = choose|j: int|
            0 <= j < d.variants.len() && variant_matches(f, #[trigger] d.variants[j])
                && variant_hits(f, d, d.variants.len() as int)[k - front.len()] == (
                d.id,
                (j % 65536) as u16,
            );
        assert(is_match_at(h, f, docs, docs.len() - 1, j));
    }
}

/// A matching variant among the first `n` is a hit.
proof fn variant_hits_complete(f: FilterView, d: DocView, n: int, j: int)
    requires
        0 <= j < n <= d.variants.len(),
        variant_matches(f, d.variants[j]),
    ensures
        variant_hits(f, d, n).contains((d.id, (j % 65536) as u16)),
    decreases n,
{
    let h = (d.id, (j % 65536) as u16);
    let s = variant_hits(f, d, n);
    if j == n - 1 {
        assert(s[s.len() - 1] == h);
    } else {
        variant_hits_complete(f, d, n - 1, j);
        let front = variant_hits(f, d, n - 1);
        let k = choose|k: int| 0 <= k < front.len() && front[k] == h;
        assert(s[k] == h);
    }
}

/// Every matching variant of a matching document is a hit.
pub proof fn matches_are_hits(f: FilterView, docs: Seq<DocView>, i: int, j: int)
    requires
        0 <= i < docs.len(),
        0 <= j < docs[i].variants.len(),
        doc_matches(f, docs[i]),
        variant_matches(f, docs[i].variants[j]),
    ensures
        all_hits(f, docs).contains((docs[i].id, (j % 65536) as u16)),
    decreases docs.len(),
{
    let h = (docs[i].id, (j % 65536) as u16);
    let s = all_hits(f, docs);
    let front = all_hits(f, docs.drop_last());
    if i == docs.len() - 1 {
        let d = docs.last();
        variant_hits_complete(f, d, d.variants.len() as int, j);
        let k = choose|k: int| 0 <= k < doc_hits(f, d).len() && doc_hits(f, d)[k] == h;
        assert(s[front.len() + k] == h);
    } else {
        matches_are_hits(f, docs.drop_last(), i, j);
        let k = choose|k: int| 0 <= k < front.len() && front[k] == h;
        assert(s[k] == h);
    }
}

/// Without a demand on variants, every variant is a hit.
proof fn every_variant_hits(f: FilterView, d: DocView, n: int)
    requires
        !variant_predicate(f),
        0 <= n <= d.variants.len(),
    ensures
        variant_hits(f, d, n).len() == n,
    decreases n,
{
    if n > 0 {
        no_predicate_matches_every_variant(f, d.variants[n - 1]);
        every_variant_hits(f, d, n - 1);
    }
}

/// The open filter hits every variant of every document.
pub proof fn open_filter_hits_everything(docs: Seq<DocView>)
    ensures
        all_hits(open_filter(), docs).len() == variant_total(docs),
    decreases docs.len(),
{
    if docs.len() > 0 {
        open_filter_hits_everything(docs.drop_last());
        every_variant_hits(open_filter(), docs.last(), docs.last().variants.len() as int);
    }
}

/// Two pages that follow each other show what one page of both shows.
pub proof fn pages_join<T>(s: Seq<T>, offset: u32, a: u32, b: u32)
    requires
        offset + a <= u32::MAX,
        a + b <= u32::MAX,
    ensures
        page_of(s, Pagination { offset, limit: a }) + page_of(
            s,
            Pagination { offset: (offset + a) as u32, limit: b },
        ) == page_of(s, Pagination { offset, limit: (a + b) as u32 }),
{
    assert(page_of(s, Pagination { offset, limit: a }) + page_of(
        s,
        Pagination { offset: (offset + a) as u32, limit: b },
    ) =~= page_of(s, Pagination { offset, limit: (a + b) as u32 }));
}

/// Under a filter that is held to one manufacturer, every hit is of a
/// document of that manufacturer.
pub proof fn held_to_manufacturer(f: FilterView, docs: Seq<DocView>, name: Seq<char>, k: int)
    requires
        f.manufacturer == Some(seq![name]),
        0 <= k < all_hits(f, docs).len(),
    ensures
        exists|i: int|
            0 <= i < docs.len() && (#[trigger] docs[i]).id == all_hits(f, docs)[k].0
                && docs[i].manufacturer == name,
{
    hits_are_matches(f, docs, k);
    let h = all_hits(f, docs)[k];
    let (i, j) = choose|i: int, j: int| is_match_at(h, f, docs, i, j);
    let list = seq![name];
    assert(list.contains(docs[i].manufacturer));
    let n = choose|n: int| 0 <= n < list.len() && list[n] == docs[i].manufacturer;
    assert(list[n] == name);
    assert(docs[i].id == h.0);
}

/// A page shows the hits from its offset on, in their order, as many as
/// its limit allows.
pub proof fn page_shows_what_is_there<T>(s: Seq<T>, page: Pagination)
    ensures
        page_of(s, page).len() <= page.limit,
        page.offset >= s.len() ==> page_of(s, page).len() == 0,
        page.offset + page.limit <= s.len() ==> page_of(s, page).len() == page.limit,
        page.offset <= s.len() < page.offset + page.limit ==> page_of(s, page).len() == s.len()
            - page.offset,
        forall|k: int|
            0 <= k < page_of(s, page).len() ==> #[trigger] page_of(s, page)[k] == s[page.offset + k],
{
}

/// The hits of one corpus after another are the hits of the first, then
/// those of the second.
pub proof fn corpora_join(f: FilterView, a: Seq<DocView>, b: Seq<DocView>)
    ensures
        all_hits(f, a + b) == all_hits(f, a) + all_hits(f, b),
    decreases b.len(),
{
    if b.len() == 0 {
        assert(a + b =~= a);
        assert(all_hits(f, a) + all_hits(f, b) =~= all_hits(f, a));
    } else {
        corpora_join(f, a, b.drop_last());
        assert((a + b).drop_last() =~= a + b.drop_last());
        assert((a + b).last() == b.last());
        assert(all_hits(f, a + b) =~= all_hits(f, a) + all_hits(f, b));
    }
}

/// The hits of one document come in the order of its variants, each at
/// most once.
pub proof fn hits_keep_the_order_of_variants(f: FilterView, d: DocView, i: int, k: int)
    requires
        d.variants.len() <= 65536,
        0 <= i < k < all_hits(f, seq![d]).len(),
    ensures
        all_hits(f, seq![d])[i].1 < all_hits(f, seq![d])[k].1,
        all_hits(f, seq![d])[i].0 == d.id,
        all_hits(f, seq![d])[k].0 == d.id,
{
    let one = seq![d];
    assert(one.drop_last() =~= Seq::empty());
    assert(all_hits(f, one.drop_last()) =~= Seq::empty());
    assert(one.last() == d);
    assert(all_hits(f, one) =~= doc_hits(f, d));
    hits_rise(f, d, d.variants.len() as int);
}

proof fn hits_rise(f: FilterView, d: DocView, n: int)
    requires
        0 <= n <= d.variants.len() <= 65536,
    ensures
        forall|i: int|
            0 <= i < variant_hits(f, d, n).len() ==> (#[trigger] variant_hits(f, d, n)[i]).1 < n
                && variant_hits(f, d, n)[i].0 == d.id,
        forall|i: int, k: int|
            0 <= i < k < variant_hits(f, d, n).len() ==> (#[trigger] variant_hits(f, d, n)[i]).1 < (
            #[trigger] variant_hits(f, d, n)[k]).1,
    decreases n,
{
    if n > 0 {
        hits_rise(f, d, n - 1);
        let front = variant_hits(f, d, n - 1);
        let all = variant_hits(f, d, n);
        assert((n - 1) % 65536 == n - 1);
        assert forall|i: int| 0 <= i < all.len() implies (#[trigger] all[i]).1 < n && all[i].0
            == d.id by {
            if i < front.len() {
                assert(all[i] == front[i]);
            }
        }
        assert forall|i: int, k: int| 0 <= i < k < all.len() implies (#[trigger] all[i]).1 < (
        #[trigger] all[k]).1 by {
            assert(all[i] == front[i]);
            if k < front.len() {
                assert(all[k] == front[k]);
            }
        }
    }
}

// ---------------------------------------------------------------------
// Searching
// ---------------------------------------------------------------------

/// The hits of several documents, in their order.
fn matching_hits(docs: &Vec<LuminaireDoc>, filter: &Filter) -> (r: Vec<SearchHit>)
    ensures
        hit_views(r@) == all_hits(filter@, doc_views(docs@)),
{
    let ghost views = doc_views(docs@);
    let ghost f = filter@;
    let asks_variants: bool = filter.has_variant_predicate();
    let mut r: Vec<SearchHit> = Vec::new();
    let mut i: usize = 0;
    proof {
        assert(hit_views(r@) =~= all_hits(f, views.take(0)));
    }
    while i < docs.len()
        invariant
            i <= docs@.len(),
            views == doc_views(docs@),
            f == filter@,
            asks_variants == variant_predicate(f),
            hit_views(r@) == all_hits(f, views.take(i as int)),
        decreases docs@.len() - i,
    {
        let doc: &LuminaireDoc = &docs[i];
        let ghost start = hit_views(r@);
        proof {
            assert(views[i as int] == doc@);
            assert(views.take(i + 1).drop_last() =~= views.take(i as int));
            assert(views.take(i + 1).last() == doc@);
            assert(start + Seq::<(Seq<u8>, u16)>::empty() =~= start);
        }
        if filter.matches_doc_scope(doc) {
            let mut j: usize = 0;
            while j < doc.variants.len()
                invariant
                    j <= doc.variants@.len(),
                    f == filter@,
                    asks_variants == variant_predicate(f),
                    hit_views(r@) == start + variant_hits(f, doc@, j as int),
                decreases doc.variants@.len() - j,
            {
                proof {
                    assert(doc@.variants[j as int] == doc.variants@[j as int]@);
                    if !asks_variants {
                        no_predicate_matches_every_variant(f, doc@.variants[j as int]);
                    }
                }
                if !asks_variants || filter.matches_variant(&doc.variants[j]) {
                    let hit: SearchHit = SearchHit { doc: doc.id, variant: (j % 65536) as u16 };
                    let ghost before = hit_views(r@);
                    r.push(hit);
                    proof {
                        assert(hit_views(r@) =~= before.push(hit@));
                        assert(before.push(hit@) =~= start + variant_hits(f, doc@, j as int).push(
                            hit@,
                        ));
                    }
                }
                j += 1;
            }
        }
        i += 1;
    }
    proof {
        assert(views.take(views.len() as int) =~= views);
    }
    r
}

/// The hits on one page, and the number of all hits in thirty-two bits.
pub fn search_docs(docs: &Vec<LuminaireDoc>, filter: &Filter, page: Pagination) -> (r: SearchResult)
    ensures
        hit_views(r.hits@) == page_of(all_hits(filter@, doc_views(docs@)), page),
        r.total == all_hits(filter@, doc_views(docs@)).len() % 0x1_0000_0000,
{
    let all: Vec<SearchHit> = matching_hits(docs, filter);
    let ghost views = all_hits(filter@, doc_views(docs@));
    let n: usize = all.len();
    let start: usize = if page.offset as u64 <= n as u64 {
        page.offset as usize
    } else {
        n
    };
    let end: usize = if page.limit as u64 <= (n - start) as u64 {
        start + page.limit as usize
    } else {
        n
    };
    let mut hits: Vec<SearchHit> = Vec::new();
    let mut i: usize = start;
    proof {
        assert(hit_views(hits@) =~= views.subrange(start as int, start as int));
    }
    while i < end
        invariant
            start <= i <= end <= n == all@.len(),
            hit_views(all@) == views,
            hit_views(hits@) == views.subrange(start as int, i as int),
        decreases end - i,
    {
        let ghost before = hit_views(hits@);
        hits.push(all[i]);
        proof {
            assert(views[i as int] == all@[i as int]@);
            assert(hit_views(hits@) =~= before.push(views[i as int]));
            assert(views.subrange(start as int, i + 1) =~= before.push(views[i as int]));
        }
        i += 1;
    }
    SearchResult { hits, total: (n as u64 % 0x1_0000_0000) as u32 }
}

} // verus!
