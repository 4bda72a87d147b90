//! The list of hits, loaded page by page.

use crate::api::VariantRef;
use crate::hex::{hex_of, hex_text};
use crate::hits::{hit_views, page_of, Pagination, SearchHit, SearchResult};
use crate::text::{decimal, opt_text, owned, push_text, to_decimal};
use vstd::prelude::*;

verus! {

/// Hits per page.
pub const PAGE_SIZE: u32 = 50;

/// What has been loaded of the hits of a filter.
#[derive(Debug)]
pub struct HitList {
    /// The hits so far.
    pub loaded: Vec<SearchHit>,
    /// How many hits there are, once it is known.
    pub total: Option<u32>,
    /// Where the next page begins.
    pub next_offset: u32,
    /// Whether a page is awaited.
    pub loading: bool,
    /// What went wrong with the last page.
    pub error: Option<String>,
    /// Number of the filter that the hits are of.
    pub generation: u64,
}

/// A page that is to be fetched.
#[derive(Clone, Copy, PartialEq, Eq, Debug, Structural)]
pub struct PageRequest {
    /// The page.
    pub page: Pagination,
    /// Number of the filter that it is of.
    pub generation: u64,
}

impl HitList {
    /// How many hits have been loaded, in thirty-two bits.
    pub open spec fn count(&self) -> int {
        self.loaded@.len() as int % 0x1_0000_0000
    }

    /// Whether every hit has been loaded.
    pub open spec fn done(&self) -> bool {
        self.total matches Some(t) && self.count() >= t
    }

    /// Whether nothing has been loaded yet.
    pub open spec fn fresh(&self) -> bool {
        &&& self.loaded@.len() == 0
        &&& self.total is None
        &&& self.next_offset == 0
        &&& self.error is None
    }

    /// Whether what has been loaded is the beginning of `all`.
    pub open spec fn begins(&self, all: Seq<(Seq<u8>, u16)>) -> bool {
        hit_views(self.loaded@) == page_of(
            all,
            Pagination { offset: 0, limit: self.next_offset },
        )
    }

    /// A list before anything is loaded.
    pub fn new() -> (r: HitList)
        ensures
            r.fresh(),
            !r.loading,
            r.generation == 0,
    {
        HitList {
            loaded: Vec::new(),
            total: None,
            next_offset: 0,
            loading: false,
            error: None,
            generation: 0,
        }
    }

    /// Asks for the next page, unless one is awaited or every hit has
    /// been loaded.
    pub fn load_next_page(&mut self) -> (r: Option<PageRequest>)
        ensures
            r is Some <==> !old(self).loading && !old(self).done(),
            r matches Some(q) ==> q.page == (Pagination {
                offset: old(self).next_offset,
                limit: PAGE_SIZE,
            }) && q.generation == old(self).generation && *final(self) == (HitList {
                loading: true,
                error: None,
                ..*old(self)
            }),
            r is None ==> *final(self) == *old(self),
    {
        if self.loading {
            return None;
        }
        match self.total {
            Some(t) => {
                if (self.loaded.len() as u64 % 0x1_0000_0000) as u32 >= t {
                    return None;
                }
            },
            None => {},
        }
        self.loading = true;
        self.error = None;
        Some(
            PageRequest {
                page: Pagination { offset: self.next_offset, limit: PAGE_SIZE },
                generation: self.generation,
            },
        )
    }

    /// A page has come, or has failed to come. A page of an earlier
    /// filter changes nothing but that no page is awaited.
    pub fn page_arrived(&mut self, generation: u64, answer: Result<SearchResult, String>)
        requires
            answer matches Ok(result) ==> (generation == old(self).generation ==> old(self).next_offset
                + result.hits@.len() <= u32::MAX),
        ensures
            !final(self).loading,
            final(self).generation == old(self).generation,
            generation != old(self).generation ==> *final(self) == (HitList {
                loading: false,
                ..*old(self)
            }),
            generation == old(self).generation ==> (match answer {
                Ok(result) => final(self).loaded@ == old(self).loaded@ + result.hits@
                    && final(self).total == Some(result.total)
                    && final(self).next_offset == old(self).next_offset
                    + result.hits@.len() && final(self).error == old(self).error,
                Err(e) => *final(self) == (HitList {
                    loading: false,
                    error: Some(e),
                    ..*old(self)
                }),
            }),
    {
        self.loading = false;
        if generation != self.generation {
            return;
        }
        match answer {
            Ok(result) => {
                self.total = Some(result.total);
                let n: u32 = result.hits.len() as u32;
                let ghost before = self.loaded@;
                let mut i: usize = 0;
                proof {
                    assert(before + result.hits@.take(0) =~= before);
                }
                while i < result.hits.len()
                    invariant
                        i <= result.hits@.len(),
                        self.loaded@ == before + result.hits@.take(i as int),
                        !self.loading,
                        self.total == Some(result.total),
                        self.generation == old(self).generation,
                        self.next_offset == old(self).next_offset,
                        self.error == old(self).error,
                    decreases result.hits@.len() - i,
                {
                    proof {
                        assert(before + result.hits@.take(i + 1) =~= (before + result.hits@.take(
                            i as int,
                        )).push(result.hits@[i as int]));
                    }
                    self.loaded.push(result.hits[i]);
                    i += 1;
                }
                proof {
                    assert(result.hits@.take(result.hits@.len() as int) =~= result.hits@);
                }
                self.next_offset = self.next_offset + n;
            },
            Err(e) => {
                self.error = Some(e);
            },
        }
    }

    /// The filter has changed: what was loaded is dropped, and the first
    /// page is to be fetched.
    pub fn filter_changed(&mut self) -> (r: PageRequest)
        requires
            old(self).generation < u64::MAX,
        ensures
            r.page == (Pagination { offset: 0, limit: PAGE_SIZE }),
            r.generation == old(self).generation + 1,
            final(self).generation == old(self).generation + 1,
            final(self).fresh(),
            final(self).loading,
    {
        self.generation = self.generation + 1;
        self.loaded = Vec::new();
        self.total = None;
        self.next_offset = 0;
        self.error = None;
        self.loading = true;
        PageRequest {
            page: Pagination { offset: 0, limit: PAGE_SIZE },
            generation: self.generation,
        }
    }

    /// The line above the hits.
    pub fn count_line(&self) -> (r: String)
        ensures
            r@ == (match self.total {
                Some(t) => decimal(self.loaded@.len()) + " of "@ + decimal(t as nat)
                    + " matches"@,
                None => "Searching\u{2026}"@,
            }),
    {
        match self.total {
            Some(t) => {
                let mut s: String = to_decimal(self.loaded.len() as u64);
                push_text(&mut s, " of ");
                push_text(&mut s, to_decimal(t as u64).as_str());
                push_text(&mut s, " matches");
                s
            },
            None => owned("Searching\u{2026}"),
        }
    }

    /// Whether more can be loaded.
    pub fn offers_more(&self) -> (r: bool)
        ensures
            r == (self.total is Some && !self.done()),
    {
        match self.total {
            Some(t) => ((self.loaded.len() as u64 % 0x1_0000_0000) as u32) < t,
            None => false,
        }
    }

    /// The label of the button that loads more.
    pub fn more_label(&self) -> (r: &'static str)
        ensures
            r@ == (if self.loading {
                "Loading\u{2026}"@
            } else {
                "Load more"@
            }),
    {
        if self.loading {
            "Loading\u{2026}"
        } else {
            "Load more"
        }
    }
}

/// Pages that are loaded one after the other are the beginning of the
/// hits: where what has been loaded begins them, so does what has been
/// loaded once the page that comes next has arrived.
pub proof fn loading_in_order(
    all: Seq<(Seq<u8>, u16)>,
    before: HitList,
    result: SearchResult,
    after: HitList,
)
    requires
        before.begins(all),
        hit_views(result.hits@) == page_of(
            all,
            Pagination { offset: before.next_offset, limit: PAGE_SIZE },
        ),
        after.loaded@ == before.loaded@ + result.hits@,
        after.next_offset == before.next_offset + result.hits@.len(),
    ensures
        after.begins(all),
{
    assert(hit_views(result.hits@).len() == result.hits@.len());
    assert(hit_views(after.loaded@) =~= hit_views(before.loaded@) + hit_views(result.hits@));
    assert(hit_views(after.loaded@) =~= page_of(
        all,
        Pagination { offset: 0, limit: after.next_offset },
    ));
}

/// A page has fifty hits.
pub proof fn pages_have_fifty_hits()
    ensures
        PAGE_SIZE == 50,
{
}

/// The rows to ask for.
pub open spec fn refs_shown(refs: Seq<VariantRef>, hits: Seq<(Seq<u8>, u16)>) -> bool {
    &&& refs.len() == hits.len()
    &&& forall|k: int|
        0 <= k < refs.len() ==> (#[trigger] refs[k]).doc_id@ == hex_text(hits[k].0)
            && refs[k].variant == hits[k].1
}

/// The rows to ask for.
pub fn variant_refs(hits: &Vec<SearchHit>) -> (r: Vec<VariantRef>)
    ensures
        refs_shown(r@, hit_views(hits@)),
{
    let ghost views = hit_views(hits@);
    let mut r: Vec<VariantRef> = Vec::new();
    let mut i: usize = 0;
    while i < hits.len()
        invariant
            i <= hits@.len(),
            views == hit_views(hits@),
            r@.len() == i,
            forall|k: int|
                0 <= k < i ==> (#[trigger] r@[k]).doc_id@ == hex_text(views[k].0)
                    && r@[k].variant == views[k].1,
        decreases hits@.len() - i,
    {
        proof {
            assert(views[i as int] == hits@[i as int]@);
        }
        r.push(VariantRef { doc_id: hex_of(&hits[i].doc), variant: hits[i].variant });
        i += 1;
    }
    r
}

/// The line above the documents that an article number found.
pub fn article_count_line(n: usize) -> (r: String)
    ensures
        r@ == (if n == 0 {
            "No matching article."@
        } else if n == 1 {
            "1 match"@
        } else {
            decimal(n as nat) + " matches"@
        }),
{
    if n == 0 {
        return owned("No matching article.");
    }
    if n == 1 {
        return owned("1 match");
    }
    let mut s: String = to_decimal(n as u64);
    push_text(&mut s, " matches");
    s
}

/// The line that names the article number.
pub fn article_notice(article: &Option<String>) -> (r: String)
    ensures
        r@ == (match opt_text(*article) {
            Some(s) => "Article #: "@ + s,
            None => Seq::empty(),
        }),
{
    match article {
        Some(s) => {
            let mut r: String = owned("Article #: ");
            push_text(&mut r, s.as_str());
            r
        },
        None => {
            let r: String = String::new();
            proof {
                assert(r@ =~= Seq::empty());
            }
            r
        },
    }
}

/// The line below the title.
pub fn tagline(scope: &Option<String>) -> (r: String)
    ensures
        r@ == (match opt_text(*scope) {
            Some(s) => "Showing "@ + s + " luminaires only"@,
            None => "Search the photometric corpus"@,
        }),
{
    match scope {
        Some(s) => {
            let mut r: String = owned("Showing ");
            push_text(&mut r, s.as_str());
            push_text(&mut r, " luminaires only");
            r
        },
        None => owned("Search the photometric corpus"),
    }
}

} // verus!
