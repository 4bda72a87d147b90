//! Article numbers: looking them up and suggesting them by prefix.

use crate::doc::{doc_views, DocView, LuminaireDoc};
use crate::selection::{as_ints, best, best_skips, best_takes, strict_order};
use crate::text::{
    ascii_alphanumeric, ascii_lower_char, begins_with, char_lowercase, chars_of, has_prefix,
    is_alphanumeric, opt_text, push_text, same_text, string_of, text_before, text_lt,
    text_lt_irreflexive, text_lt_total, text_lt_transitive, to_ascii_lower_char,
    unicode_alphanumeric, unicode_char_lower,
};
use vstd::hash_map::StringHashMap;
use vstd::prelude::*;

verus! {

/// What one character leaves in the key of an article number.
pub open spec fn article_char(c: char) -> Seq<char> {
    if ascii_alphanumeric(c) {
        seq![ascii_lower_char(c)]
    } else if unicode_alphanumeric(c) {
        unicode_char_lower(c)
    } else {
        Seq::empty()
    }
}

/// The key of an article number: its letters and digits, in small
/// letters.
pub open spec fn article_key(s: Seq<char>) -> Seq<char>
    decreases s.len(),
{
    if s.len() == 0 {
        Seq::empty()
    } else {
        article_key(s.drop_last()) + article_char(s.last())
    }
}

/// A key of ASCII letters and digits is its own key.
pub proof fn ascii_key_is_kept(s: Seq<char>)
    requires
        forall|i: int|
            0 <= i < s.len() ==> ascii_alphanumeric(#[trigger] s[i]) && ascii_lower_char(s[i])
                == s[i],
    ensures
        article_key(s) == s,
    decreases s.len(),
{
    if s.len() > 0 {
        assert forall|i: int| 0 <= i < s.drop_last().len() implies ascii_alphanumeric(
            #[trigger] s.drop_last()[i],
        ) && ascii_lower_char(s.drop_last()[i]) == s.drop_last()[i] by {
            assert(s.drop_last()[i] == s[i]);
        }
        ascii_key_is_kept(s.drop_last());
        let c = s[s.len() - 1];
        assert(ascii_alphanumeric(c));
        assert(article_key(s) =~= s);
    } else {
        assert(article_key(s) =~= s);
    }
}

/// The key of two texts in a row is the keys in a row.
pub proof fn article_key_joins(a: Seq<char>, b: Seq<char>)
    ensures
        article_key(a + b) == article_key(a) + article_key(b),
    decreases b.len(),
{
    if b.len() == 0 {
        assert(a + b =~= a);
        assert(article_key(a) + article_key(b) =~= article_key(a));
    } else {
        assert((a + b).drop_last() =~= a + b.drop_last());
        article_key_joins(a, b.drop_last());
        assert(article_key(a + b) =~= article_key(a) + article_key(b));
    }
}

/// A character that is neither letter nor digit leaves no trace in a
/// key, wherever it stands.
pub proof fn separators_do_not_matter(a: Seq<char>, c: char, b: Seq<char>)
    requires
        !ascii_alphanumeric(c),
        !unicode_alphanumeric(c),
    ensures
        article_key(a.push(c) + b) == article_key(a + b),
{
    article_key_joins(a.push(c), b);
    article_key_joins(a, b);
    assert(a.push(c).drop_last() =~= a);
    assert(article_key(a.push(c)) =~= article_key(a));
}

/// Whether an optional article number has the given key.
pub open spec fn code_has_key(code: Option<Seq<char>>, key: Seq<char>) -> bool {
    code matches Some(c) && article_key(c) == key
}

/// Whether a document has an article number with the given key.
pub open spec fn doc_has_key(d: DocView, key: Seq<char>) -> bool {
    code_has_key(d.gtin, key) || code_has_key(d.product_code, key)
}

/// The positions of the documents that have an article number with the
/// given key, rising.
pub open spec fn docs_with_key(docs: Seq<DocView>, key: Seq<char>) -> Seq<int>
    decreases docs.len(),
{
    if docs.len() == 0 {
        Seq::empty()
    } else if doc_has_key(docs.last(), key) {
        docs_with_key(docs.drop_last(), key).push(docs.len() - 1)
    } else {
        docs_with_key(docs.drop_last(), key)
    }
}

/// The positions of the documents that an article number finds. A
/// number without letters and digits finds none.
pub open spec fn article_docs(docs: Seq<DocView>, article: Seq<char>) -> Seq<int> {
    if article_key(article).len() == 0 {
        Seq::empty()
    } else {
        docs_with_key(docs, article_key(article))
    }
}

/// The positions that a key finds are those of the documents that have
/// it, each once.
pub proof fn docs_with_key_exact(docs: Seq<DocView>, key: Seq<char>)
    ensures
        forall|a: int, b: int|
            0 <= a < b < docs_with_key(docs, key).len() ==> docs_with_key(docs, key)[a]
                < docs_with_key(docs, key)[b],
        forall|i: int| #[trigger]
            docs_with_key(docs, key).contains(i) <==> 0 <= i < docs.len() && doc_has_key(
                docs[i],
                key,
            ),
    decreases docs.len(),
{
    let s = docs_with_key(docs, key);
    if docs.len() > 0 {
        let front = docs_with_key(docs.drop_last(), key);
        docs_with_key_exact(docs.drop_last(), key);
        assert forall|i: int| front.contains(i) implies i < docs.len() - 1 by {}
        assert forall|a: int, b: int| 0 <= a < b < s.len() implies s[a] < s[b] by {
            if b < front.len() {
                assert(front[a] < front[b]);
            } else {
                assert(front.contains(front[a]));
            }
        }
        assert forall|i: int| #[trigger] s.contains(i) <==> 0 <= i < docs.len() && doc_has_key(
            docs[i],
            key,
        ) by {
            if s.contains(i) {
                let k = choose|k: int| 0 <= k < s.len() && s[k] == i;
                if k < front.len() {
                    assert(front[k] == i);
                    assert(front.contains(i));
                    assert(docs.drop_last()[i] == docs[i]);
                }
            }
            if 0 <= i < docs.len() && doc_has_key(docs[i], key) {
                if i == docs.len() - 1 {
                    assert(s[s.len() - 1] == i);
                } else {
                    assert(docs.drop_last()[i] == docs[i]);
                    assert(front.contains(i));
                    let k = choose|k: int| 0 <= k < front.len() && front[k] == i;
                    assert(s[k] == i);
                }
            }
        }
    }
}

/// Article numbers with the same key find the same documents.
pub proof fn cosmetic_variants_find_the_same(docs: Seq<DocView>, a: Seq<char>, b: Seq<char>)
    requires
        article_key(a) == article_key(b),
    ensures
        article_docs(docs, a) == article_docs(docs, b),
{
}

// ---------------------------------------------------------------------
// Entries for suggestions
// ---------------------------------------------------------------------

/// One article number of one document.
pub struct ArticleView {
    /// The key.
    pub key: Seq<char>,
    /// The number as printed.
    pub original: Seq<char>,
    /// Position of the document.
    pub doc: int,
}

/// The entry of one optional article number.
pub open spec fn code_entries(code: Option<Seq<char>>, doc: int) -> Seq<ArticleView> {
    match code {
        Some(c) => if article_key(c).len() > 0 {
            seq![ArticleView { key: article_key(c), original: c, doc }]
        } else {
            Seq::empty()
        },
        None => Seq::empty(),
    }
}

/// The entries of one document: its trade item number, then its product
/// code where that is another text.
pub open spec fn doc_entries(d: DocView, doc: int) -> Seq<ArticleView> {
    code_entries(d.gtin, doc) + if d.product_code == d.gtin {
        Seq::empty()
    } else {
        code_entries(d.product_code, doc)
    }
}

/// The entries of several documents, in their order.
pub open spec fn article_entries(docs: Seq<DocView>) -> Seq<ArticleView>
    decreases docs.len(),
{
    if docs.len() == 0 {
        Seq::empty()
    } else {
        article_entries(docs.drop_last()) + doc_entries(docs.last(), docs.len() - 1)
    }
}

/// Whether an entry is suggested for a key prefix.
pub open spec fn entry_wanted(entries: Seq<ArticleView>, prefix: Seq<char>) -> spec_fn(int) -> bool {
    |i: int| has_prefix(entries[i].key, prefix)
}

/// The order of suggestions: by key, then by position.
pub open spec fn entry_order(entries: Seq<ArticleView>) -> spec_fn(int, int) -> bool {
    |i: int, j: int|
        text_lt(entries[i].key, entries[j].key) || (entries[i].key == entries[j].key && i < j)
}

/// One suggested article number, with what tells it apart.
#[derive(PartialEq, Eq, Debug)]
pub struct ArticleSuggestion {
    /// The number as printed.
    pub article: String,
    /// Manufacturer of the document.
    pub manufacturer: String,
    /// Product name of the document.
    pub product: String,
}

/// Whether a suggestion shows an entry of one of the documents.
pub open spec fn shows_entry(
    s: ArticleSuggestion,
    e: ArticleView,
    docs: Seq<DocView>,
) -> bool {
    &&& s.article@ == e.original
    &&& 0 <= e.doc < docs.len()
    &&& s.manufacturer@ == docs[e.doc].manufacturer
    &&& s.product@ == docs[e.doc].product
}

/// Whether `picks` are the entries to suggest for a typed prefix: none
/// for fewer than three characters of its key, else the first `limit`
/// by key.
pub open spec fn article_picks(
    picks: Seq<int>,
    docs: Seq<DocView>,
    typed: Seq<char>,
    limit: int,
) -> bool {
    let entries = article_entries(docs);
    let prefix = article_key(typed);
    if prefix.len() < 3 {
        picks.len() == 0
    } else {
        best(
            picks,
            entries.len() as int,
            entry_wanted(entries, prefix),
            entry_order(entries),
            limit,
        )
    }
}

/// Whether `out` are the suggestions for a typed prefix.
pub open spec fn suggests_articles(
    out: Seq<ArticleSuggestion>,
    docs: Seq<DocView>,
    typed: Seq<char>,
    limit: int,
) -> bool {
    exists|picks: Seq<int>| #[trigger]
        article_picks(picks, docs, typed, limit) && out.len() == picks.len() && forall|k: int|
            0 <= k < out.len() ==> shows_entry(
                #[trigger] out[k],
                article_entries(docs)[picks[k]],
                docs,
            )
}

/// The order of suggestions is strict.
pub proof fn entry_order_is_strict(entries: Seq<ArticleView>, n: int)
    requires
        0 <= n <= entries.len(),
    ensures
        strict_order(entry_order(entries), n),
{
    let before = entry_order(entries);
    assert forall|a: int| 0 <= a < n implies !#[trigger] before(a, a) by {
        text_lt_irreflexive(entries[a].key);
    }
    assert forall|a: int, b: int, c: int|
        0 <= a < n && 0 <= b < n && 0 <= c < n && #[trigger] before(a, b) && #[trigger] before(
            b,
            c,
        ) implies before(a, c) by {
        if text_lt(entries[a].key, entries[b].key) && text_lt(entries[b].key, entries[c].key) {
            text_lt_transitive(entries[a].key, entries[b].key, entries[c].key);
        }
    }
}

/// The letters of ASCII count in either case, its digits as they are.
pub proof fn keys_are_in_small_letters(c: char)
    ensures
        'A' <= c <= 'Z' ==> article_key(seq![c]) == seq![((c as u32) + 32) as char],
        'a' <= c <= 'z' ==> article_key(seq![c]) == seq![c],
        '0' <= c <= '9' ==> article_key(seq![c]) == seq![c],
        (c as u32) < 128 && !('A' <= c <= 'Z') && !('a' <= c <= 'z') && !('0' <= c <= '9')
            && !unicode_alphanumeric(c) ==> article_key(seq![c]).len() == 0,
{
    let s = seq![c];
    assert(s.drop_last() =~= Seq::empty());
    assert(article_key(s.drop_last()) =~= Seq::empty());
    assert(article_key(s) =~= article_char(c));
}

/// A document is found by its trade item number and by its product code,
/// where they have a letter or a digit.
pub proof fn documents_are_found_by_their_numbers(docs: Seq<DocView>, i: int, number: Seq<char>)
    requires
        0 <= i < docs.len(),
        docs[i].gtin == Some(number) || docs[i].product_code == Some(number),
        article_key(number).len() > 0,
    ensures
        article_docs(docs, number).contains(i),
{
    docs_with_key_exact(docs, article_key(number));
}

/// What an article number finds has that number, but for signs between
/// letters and digits and the case of letters.
pub proof fn found_documents_have_the_number(docs: Seq<DocView>, article: Seq<char>, i: int)
    requires
        article_docs(docs, article).contains(i),
    ensures
        article_key(article).len() > 0,
        0 <= i < docs.len(),
        (docs[i].gtin is Some && article_key(docs[i].gtin->0) == article_key(article)) || (
        docs[i].product_code is Some && article_key(docs[i].product_code->0) == article_key(
            article,
        )),
{
    docs_with_key_exact(docs, article_key(article));
}

/// Every entry is a number of its document, and every number of a
/// document with a letter or digit has an entry.
#[verifier::spinoff_prover]
pub proof fn entries_are_the_numbers(docs: Seq<DocView>)
    ensures
        forall|k: int|
            0 <= k < article_entries(docs).len() ==> {
                let e = #[trigger] article_entries(docs)[k];
                &&& 0 <= e.doc < docs.len()
                &&& docs[e.doc].gtin == Some(e.original) || docs[e.doc].product_code == Some(
                    e.original,
                )
                &&& e.key == article_key(e.original)
                &&& e.key.len() > 0
            },
        forall|i: int, number: Seq<char>|
            0 <= i < docs.len() && article_key(number).len() > 0 && ((#[trigger] docs[i]).gtin
                == Some(number) || docs[i].product_code == Some(number)) ==> #[trigger] has_entry(
                docs,
                i,
                number,
            ),
    decreases docs.len(),
{
    let all = article_entries(docs);
    if docs.len() > 0 {
        let front = article_entries(docs.drop_last());
        let last = docs.last();
        let n = docs.len() - 1;
        let own = doc_entries(last, n);
        entries_are_the_numbers(docs.drop_last());
        assert forall|k: int| 0 <= k < all.len() implies {
            let e = #[trigger] all[k];
            &&& 0 <= e.doc < docs.len()
            &&& docs[e.doc].gtin == Some(e.original) || docs[e.doc].product_code == Some(e.original)
            &&& e.key == article_key(e.original)
            &&& e.key.len() > 0
        } by {
            if k < front.len() {
                assert(all[k] == front[k]);
                assert(docs.drop_last()[front[k].doc] == docs[front[k].doc]);
            } else {
                assert(all[k] == own[k - front.len()]);
            }
        }
        assert forall|i: int, number: Seq<char>|
            0 <= i < docs.len() && article_key(number).len() > 0 && ((#[trigger] docs[i]).gtin
                == Some(number) || docs[i].product_code == Some(number)) implies #[trigger] has_entry(
            docs,
            i,
            number,
        ) by {
            if i < n {
                assert(docs.drop_last()[i] == docs[i]);
                assert(has_entry(docs.drop_last(), i, number));
                let k = choose|k: int|
                    0 <= k < front.len() && (#[trigger] front[k]).doc == i && front[k].original
                        == number;
                assert(all[k] == front[k]);
            } else {
                let g = code_entries(last.gtin, n);
                if last.gtin == Some(number) {
                    assert(own[0] == g[0]);
                    assert(all[front.len() as int] == own[0]);
                } else {
                    let k = own.len() - 1;
                    assert(own[k].original == number);
                    assert(all[front.len() + k] == own[k]);
                }
            }
        }
    }
}

/// Whether a number of a document has an entry.
pub open spec fn has_entry(docs: Seq<DocView>, i: int, number: Seq<char>) -> bool {
    exists|k: int|
        0 <= k < article_entries(docs).len() && (#[trigger] article_entries(docs)[k]).doc == i
            && article_entries(docs)[k].original == number
}

/// A suggestion shows an article number whose key begins with what was
/// typed, with the manufacturer and the product of its document. Fewer
/// than three letters and digits suggest nothing, and there are never
/// more suggestions than asked for.
#[verifier::spinoff_prover]
pub proof fn suggestions_continue_what_was_typed(
    out: Seq<ArticleSuggestion>,
    docs: Seq<DocView>,
    typed: Seq<char>,
    limit: int,
)
    requires
        suggests_articles(out, docs, typed, limit),
        limit >= 0,
    ensures
        out.len() <= limit,
        article_key(typed).len() < 3 ==> out.len() == 0,
        forall|k: int|
            0 <= k < out.len() ==> has_prefix(
                article_key((#[trigger] out[k]).article@),
                article_key(typed),
            ) && exists|i: int|
                0 <= i < docs.len() && (#[trigger] docs[i]).manufacturer == out[k].manufacturer@
                    && docs[i].product == out[k].product@ && (docs[i].gtin == Some(out[k].article@)
                    || docs[i].product_code == Some(out[k].article@)),
        forall|a: int, b: int|
            0 <= a < b < out.len() ==> !text_lt(
                article_key((#[trigger] out[b]).article@),
                article_key((#[trigger] out[a]).article@),
            ),
{
    let entries = article_entries(docs);
    let picks = choose|picks: Seq<int>| #[trigger]
        article_picks(picks, docs, typed, limit) && out.len() == picks.len() && forall|k: int|
            0 <= k < out.len() ==> shows_entry(#[trigger] out[k], entries[picks[k]], docs);
    entries_are_the_numbers(docs);
    let before = entry_order(entries);
    assert forall|k: int| 0 <= k < out.len() implies has_prefix(
        article_key((#[trigger] out[k]).article@),
        article_key(typed),
    ) && exists|i: int|
        0 <= i < docs.len() && (#[trigger] docs[i]).manufacturer == out[k].manufacturer@
            && docs[i].product == out[k].product@ && (docs[i].gtin == Some(out[k].article@)
            || docs[i].product_code == Some(out[k].article@)) by {
        assert(shows_entry(out[k], entries[picks[k]], docs));
        assert(entry_wanted(entries, article_key(typed))(picks[k]));
        let i = entries[picks[k]].doc;
        assert(docs[i].manufacturer == out[k].manufacturer@);
    }
    assert forall|a: int, b: int| 0 <= a < b < out.len() implies !text_lt(
        article_key((#[trigger] out[b]).article@),
        article_key((#[trigger] out[a]).article@),
    ) by {
        assert(shows_entry(out[a], entries[picks[a]], docs));
        assert(shows_entry(out[b], entries[picks[b]], docs));
        assert(before(picks[a], picks[b]));
        let (x, y) = (entries[picks[a]].key, entries[picks[b]].key);
        text_lt_irreflexive(x);
        if text_lt(x, y) && text_lt(y, x) {
            text_lt_transitive(x, y, x);
        }
    }
}

/// Where there is room for more, every number that continues what was
/// typed is suggested.
pub proof fn nothing_is_left_out_where_there_is_room(
    out: Seq<ArticleSuggestion>,
    docs: Seq<DocView>,
    typed: Seq<char>,
    limit: int,
    i: int,
    number: Seq<char>,
)
    requires
        suggests_articles(out, docs, typed, limit),
        out.len() < limit,
        article_key(typed).len() >= 3,
        0 <= i < docs.len(),
        docs[i].gtin == Some(number) || docs[i].product_code == Some(number),
        has_prefix(article_key(number), article_key(typed)),
    ensures
        exists|k: int| 0 <= k < out.len() && (#[trigger] out[k]).article@ == number,
{
    let entries = article_entries(docs);
    let picks = choose|picks: Seq<int>| #[trigger]
        article_picks(picks, docs, typed, limit) && out.len() == picks.len() && forall|k: int|
            0 <= k < out.len() ==> shows_entry(#[trigger] out[k], entries[picks[k]], docs);
    entries_are_the_numbers(docs);
    assert(has_entry(docs, i, number));
    let e = choose|k: int|
        0 <= k < entries.len() && (#[trigger] entries[k]).doc == i && entries[k].original == number;
    assert(entry_wanted(entries, article_key(typed))(e));
    assert(picks.contains(e));
    let k = choose|k: int| 0 <= k < picks.len() && picks[k] == e;
    assert(shows_entry(out[k], entries[picks[k]], docs));
}

// ---------------------------------------------------------------------
// Code
// ---------------------------------------------------------------------

/// The key of an article number.
pub fn normalize_article(raw: &str) -> (r: String)
    ensures
        r@ == article_key(raw@),
{
    let cs: Vec<char> = chars_of(raw);
    let mut out: String = String::new();
    let mut i: usize = 0;
    proof {
        assert(raw@.take(0) =~= Seq::empty());
        assert(article_key(raw@.take(0)) =~= Seq::empty());
    }
    while i < cs.len()
        invariant
            i <= cs@.len(),
            cs@ == raw@,
            out@ == article_key(raw@.take(i as int)),
        decreases cs@.len() - i,
    {
        let c: char = cs[i];
        let ghost before = out@;
        proof {
            assert(raw@.take(i + 1).drop_last() =~= raw@.take(i as int));
            assert(raw@.take(i + 1).last() == c);
        }
        if ('a' <= c && c <= 'z') || ('A' <= c && c <= 'Z') || ('0' <= c && c <= '9') {
            out.push(to_ascii_lower_char(c));
            proof {
                assert(out@ =~= before + article_char(c));
            }
        } else if is_alphanumeric(c) {
            let lower: Vec<char> = char_lowercase(c);
            push_text(&mut out, string_of(&lower).as_str());
        } else {
            proof {
                assert(before + article_char(c) =~= before);
            }
        }
        i += 1;
    }
    proof {
        assert(raw@.take(raw@.len() as int) =~= raw@);
    }
    out
}

/// One article number of one document.
pub struct ArticleEntry {
    /// The key.
    pub key: String,
    /// The number as printed.
    pub original: String,
    /// Position of the document.
    pub doc_ix: usize,
}

impl View for ArticleEntry {
    type V = ArticleView;

    open spec fn view(&self) -> ArticleView {
        ArticleView { key: self.key@, original: self.original@, doc: self.doc_ix as int }
    }
}

/// The views of a sequence of entries.
pub open spec fn entry_views(v: Seq<ArticleEntry>) -> Seq<ArticleView> {
    v.map_values(|e: ArticleEntry| e@)
}

/// Adds the entry of one optional article number.
fn add_code(entries: &mut Vec<ArticleEntry>, code: &Option<String>, doc_ix: usize)
    ensures
        entry_views(final(entries)@) == entry_views(old(entries)@) + code_entries(
            opt_text(*code),
            doc_ix as int,
        ),
{
    let ghost before = entry_views(entries@);
    if let Some(c) = code {
        let key: String = normalize_article(c.as_str());
        if !key.as_str().is_empty() {
            let e: ArticleEntry = ArticleEntry { key, original: c.clone(), doc_ix };
            let ghost view = e@;
            entries.push(e);
            proof {
                assert(entry_views(entries@) =~= before.push(view));
                assert(before.push(view) =~= before + seq![view]);
            }
            return;
        }
    }
    proof {
        assert(before + Seq::<ArticleView>::empty() =~= before);
    }
}

/// Whether two optional texts are the same.
fn same_code(a: &Option<String>, b: &Option<String>) -> (r: bool)
    ensures
        r == (opt_text(*a) == opt_text(*b)),
{
    match (a, b) {
        (Some(x), Some(y)) => same_text(x.as_str(), y.as_str()),
        (None, None) => true,
        _ => false,
    }
}

/// The entries of several documents.
pub fn build_entries(docs: &Vec<LuminaireDoc>) -> (r: Vec<ArticleEntry>)
    ensures
        entry_views(r@) == article_entries(doc_views(docs@)),
{
    let ghost views = doc_views(docs@);
    let mut r: Vec<ArticleEntry> = Vec::new();
    let mut i: usize = 0;
    proof {
        assert(entry_views(r@) =~= article_entries(views.take(0)));
    }
    while i < docs.len()
        invariant
            i <= docs@.len(),
            views == doc_views(docs@),
            entry_views(r@) == article_entries(views.take(i as int)),
        decreases docs@.len() - i,
    {
        let ghost before = entry_views(r@);
        let d: &LuminaireDoc = &docs[i];
        proof {
            assert(views[i as int] == d@);
            assert(views.take(i + 1).drop_last() =~= views.take(i as int));
            assert(views.take(i + 1).last() == d@);
        }
        add_code(&mut r, &d.gtin, i);
        if !same_code(&d.product_code, &d.gtin) {
            add_code(&mut r, &d.product_code, i);
            proof {
                assert(before + code_entries(d@.gtin, i as int) + code_entries(
                    d@.product_code,
                    i as int,
                ) =~= before + doc_entries(d@, i as int));
            }
        } else {
            proof {
                assert(before + code_entries(d@.gtin, i as int) =~= before + doc_entries(
                    d@,
                    i as int,
                ));
            }
        }
        i += 1;
    }
    proof {
        assert(views.take(views.len() as int) =~= views);
    }
    r
}

/// Every entry names one of the documents.
proof fn entries_name_docs(docs: Seq<DocView>, i: int)
    requires
        0 <= i < article_entries(docs).len(),
    ensures
        0 <= article_entries(docs)[i].doc < docs.len(),
    decreases docs.len(),
{
    let front = article_entries(docs.drop_last());
    if i < front.len() {
        entries_name_docs(docs.drop_last(), i);
    } else {
        let tail = doc_entries(docs.last(), docs.len() - 1);
        assert(article_entries(docs)[i] == tail[i - front.len()]);
    }
}

/// The first `limit` article numbers whose key begins with the key of
/// what was typed. None for fewer than three characters.
pub fn suggest(
    docs: &Vec<LuminaireDoc>,
    entries: &Vec<ArticleEntry>,
    typed: &str,
    limit: usize,
) -> (r: Vec<ArticleSuggestion>)
    requires
        entry_views(entries@) == article_entries(doc_views(docs@)),
    ensures
        suggests_articles(r@, doc_views(docs@), typed@, limit as int),
{
    let ghost views = doc_views(docs@);
    let ghost all = article_entries(views);
    let prefix: String = normalize_article(typed);
    let mut out: Vec<ArticleSuggestion> = Vec::new();
    if chars_of(prefix.as_str()).len() < 3 {
        proof {
            assert(article_picks(Seq::empty(), views, typed@, limit as int));
        }
        return out;
    }
    let ghost wanted = entry_wanted(all, prefix@);
    let ghost before = entry_order(all);
    let mut picks: Vec<usize> = Vec::new();
    proof {
        assert(as_ints(picks@) =~= Seq::empty());
    }
    if limit == 0 {
        proof {
            assert(article_picks(Seq::empty(), views, typed@, limit as int));
        }
        return out;
    }
    let mut i: usize = 0;
    while i < entries.len()
        invariant
            i <= entries@.len(),
            limit >= 1,
            all == entry_views(entries@),
            wanted == entry_wanted(all, prefix@),
            before == entry_order(all),
            best(as_ints(picks@), i as int, wanted, before, limit as int),
        decreases entries@.len() - i,
    {
        proof {
            assert(all[i as int] == entries@[i as int]@);
        }
        if begins_with(entries[i].key.as_str(), prefix.as_str()) {
            let mut at: usize = 0;
            proof {
                assert forall|a: int| 0 <= a < picks@.len() implies #[trigger] picks@[a] < i by {
                    assert(as_ints(picks@)[a] == picks@[a]);
                }
            }
            while at < picks.len() && !text_before(
                entries[i].key.as_str(),
                entries[picks[at]].key.as_str(),
            )
                invariant
                    i < entries@.len(),
                    at <= picks@.len(),
                    all == entry_views(entries@),
                    before == entry_order(all),
                    best(as_ints(picks@), i as int, wanted, before, limit as int),
                    forall|a: int| 0 <= a < picks@.len() ==> #[trigger] picks@[a] < i,
                    forall|a: int| 0 <= a < at ==> before(#[trigger] as_ints(picks@)[a], i as int),
                decreases picks@.len() - at,
            {
                proof {
                    let p = picks@[at as int];
                    assert(as_ints(picks@)[at as int] == p);
                    assert(all[p as int] == entries@[p as int]@);
                    assert(all[i as int] == entries@[i as int]@);
                    text_lt_total(all[p as int].key, all[i as int].key);
                }
                at += 1;
            }
            let ghost held = as_ints(picks@);
            proof {
                entry_order_is_strict(all, i + 1);
                assert forall|a: int| at <= a < held.len() implies before(
                    i as int,
                    #[trigger] held[a],
                ) by {
                    let p = held[at as int];
                    assert(p == picks@[at as int] && p < i);
                    assert(all[p] == entries@[p]@);
                    assert(all[i as int] == entries@[i as int]@);
                    assert(before(i as int, p));
                    if a > at {
                        assert(before(held[at as int], held[a]));
                        assert(held[a] < i);
                    }
                }
                best_takes(held, i as int, wanted, before, limit as int, at as int);
            }
            if picks.len() < limit {
                picks.insert(at, i);
                proof {
                    assert(as_ints(picks@) =~= held.insert(at as int, i as int));
                }
            } else {
                picks.insert(at, i);
                let _ = picks.pop();
                proof {
                    assert(as_ints(picks@) =~= held.insert(at as int, i as int).drop_last());
                }
            }
        } else {
            proof {
                best_skips(as_ints(picks@), i as int, wanted, before, limit as int);
            }
        }
        i += 1;
    }
    let mut k: usize = 0;
    proof {
        assert forall|a: int| 0 <= a < picks@.len() implies #[trigger] picks@[a] < all.len() by {
            assert(as_ints(picks@)[a] == picks@[a]);
        }
    }
    while k < picks.len()
        invariant
            k <= picks@.len(),
            views == doc_views(docs@),
            all == entry_views(entries@),
            all == article_entries(views),
            forall|a: int| 0 <= a < picks@.len() ==> #[trigger] picks@[a] < all.len(),
            out@.len() == k,
            forall|a: int|
                0 <= a < k ==> shows_entry(#[trigger] out@[a], all[as_ints(picks@)[a]], views),
        decreases picks@.len() - k,
    {
        let p: usize = picks[k];
        proof {
            assert(p < all.len());
            assert(all[p as int] == entries@[p as int]@);
            entries_name_docs(views, p as int);
        }
        let e: &ArticleEntry = &entries[p];
        let d: &LuminaireDoc = &docs[e.doc_ix];
        proof {
            assert(views[e.doc_ix as int] == d@);
        }
        out.push(
            ArticleSuggestion {
                article: e.original.clone(),
                manufacturer: d.manufacturer.clone(),
                product: d.product.clone(),
            },
        );
        k += 1;
    }
    proof {
        assert(article_picks(as_ints(picks@), views, typed@, limit as int));
    }
    out
}

// ---------------------------------------------------------------------
// Looking up
// ---------------------------------------------------------------------

/// Whether a map holds, for every key with letters or digits, the
/// positions of the documents that have it.
pub open spec fn maps_articles(m: Map<Seq<char>, Vec<usize>>, docs: Seq<DocView>) -> bool {
    &&& forall|key: Seq<char>| #[trigger]
        m.contains_key(key) <==> key.len() > 0 && docs_with_key(docs, key).len() > 0
    &&& forall|key: Seq<char>| #[trigger]
        m.contains_key(key) ==> as_ints(m[key]@) == docs_with_key(docs, key)
}

/// A copy of a list of positions.
fn copy_positions(list: &Vec<usize>) -> (r: Vec<usize>)
    ensures
        r@ == list@,
{
    let mut r: Vec<usize> = Vec::new();
    let mut i: usize = 0;
    while i < list.len()
        invariant
            i <= list@.len(),
            r@ == list@.take(i as int),
        decreases list@.len() - i,
    {
        proof {
            assert(list@.take(i + 1) =~= list@.take(i as int).push(list@[i as int]));
        }
        r.push(list[i]);
        i += 1;
    }
    proof {
        assert(list@.take(list@.len() as int) =~= list@);
    }
    r
}

/// The positions that a map would hold for a key with one more position
/// added, unless it is the last one there already.
spec fn with_position(m: Map<Seq<char>, Vec<usize>>, key: Seq<char>, i: int) -> Seq<int> {
    let held = if m.contains_key(key) {
        as_ints(m[key]@)
    } else {
        Seq::empty()
    };
    if held.len() > 0 && held.last() == i {
        held
    } else {
        held.push(i)
    }
}

/// Adds a position to the list of one article number's key.
fn add_position(m: &mut StringHashMap<Vec<usize>>, code: &Option<String>, doc_ix: usize)
    ensures
        forall|key: Seq<char>| #[trigger]
            final(m)@.contains_key(key) <==> old(m)@.contains_key(key) || (code_has_key(
                opt_text(*code),
                key,
            ) && key.len() > 0),
        forall|key: Seq<char>| #[trigger]
            final(m)@.contains_key(key) ==> as_ints(final(m)@[key]@) == if code_has_key(
                opt_text(*code),
                key,
            ) && key.len() > 0 {
                with_position(old(m)@, key, doc_ix as int)
            } else {
                as_ints(old(m)@[key]@)
            },
{
    if let Some(c) = code {
        let key: String = normalize_article(c.as_str());
        if !key.as_str().is_empty() {
            let mut list: Vec<usize> = match m.get(key.as_str()) {
                Some(l) => copy_positions(l),
                None => Vec::new(),
            };
            let ghost held = as_ints(list@);
            proof {
                assert(Seq::<usize>::empty().map_values(|x: usize| x as int) =~= Seq::<int>::empty());
            }
            if list.len() == 0 || list[list.len() - 1] != doc_ix {
                list.push(doc_ix);
                proof {
                    assert(as_ints(list@) =~= held.push(doc_ix as int));
                }
            }
            m.insert(key, list);
        }
    }
}

/// The map from keys to the documents that have them.
pub fn build_article_map(docs: &Vec<LuminaireDoc>) -> (m: StringHashMap<Vec<usize>>)
    ensures
        maps_articles(m@, doc_views(docs@)),
{
    let ghost views = doc_views(docs@);
    let mut m: StringHashMap<Vec<usize>> = StringHashMap::new();
    let mut i: usize = 0;
    while i < docs.len()
        invariant
            i <= docs@.len(),
            views == doc_views(docs@),
            maps_articles(m@, views.take(i as int)),
        decreases docs@.len() - i,
    {
        let d: &LuminaireDoc = &docs[i];
        let ghost front = views.take(i as int);
        let ghost next = views.take(i + 1);
        let ghost m0 = m@;
        proof {
            assert(views[i as int] == d@);
            assert(next.drop_last() =~= front);
            assert(next.last() == d@);
        }
        add_position(&mut m, &d.gtin, i);
        let ghost m1 = m@;
        add_position(&mut m, &d.product_code, i);
        proof {
            assert forall|key: Seq<char>| #[trigger] m@.contains_key(key) <==> key.len() > 0
                && docs_with_key(next, key).len() > 0 by {
                assert(m1.contains_key(key) <==> m0.contains_key(key) || (code_has_key(
                    d@.gtin,
                    key,
                ) && key.len() > 0));
                assert(m0.contains_key(key) <==> key.len() > 0 && docs_with_key(front, key).len()
                    > 0);
            }
            assert forall|key: Seq<char>| #[trigger] m@.contains_key(key) implies as_ints(m@[key]@)
                == docs_with_key(next, key) by {
                assert(m1.contains_key(key) <==> m0.contains_key(key) || (code_has_key(
                    d@.gtin,
                    key,
                ) && key.len() > 0));
                assert(m0.contains_key(key) <==> key.len() > 0 && docs_with_key(front, key).len()
                    > 0);
                docs_with_key_exact(front, key);
                let held = docs_with_key(front, key);
                if held.len() > 0 {
                    assert(held.contains(held.last()));
                    assert(held.last() < i);
                } else {
                    assert(held =~= Seq::empty());
                }
            }
        }
        i += 1;
    }
    proof {
        assert(views.take(views.len() as int) =~= views);
    }
    m
}

/// The documents that an article number finds, in order.
pub fn look_up<'a>(
    docs: &'a Vec<LuminaireDoc>,
    m: &StringHashMap<Vec<usize>>,
    article: &str,
) -> (r: Vec<&'a LuminaireDoc>)
    requires
        maps_articles(m@, doc_views(docs@)),
    ensures
        r@.len() == article_docs(doc_views(docs@), article@).len(),
        forall|k: int|
            0 <= k < r@.len() ==> *(#[trigger] r@[k]) == docs@[article_docs(
                doc_views(docs@),
                article@,
            )[k]],
{
    let ghost views = doc_views(docs@);
    let key: String = normalize_article(article);
    let mut r: Vec<&'a LuminaireDoc> = Vec::new();
    if key.as_str().is_empty() {
        return r;
    }
    let ghost found = docs_with_key(views, key@);
    match m.get(key.as_str()) {
        Some(list) => {
            proof {
                docs_with_key_exact(views, key@);
            }
            let mut i: usize = 0;
            while i < list.len()
                invariant
                    i <= list@.len(),
                    views == doc_views(docs@),
                    as_ints(list@) == found,
                    found == docs_with_key(views, key@),
                    forall|x: int| #[trigger]
                        docs_with_key(views, key@).contains(x) <==> 0 <= x < views.len()
                            && doc_has_key(views[x], key@),
                    r@.len() == i,
                    forall|k: int| 0 <= k < i ==> *(#[trigger] r@[k]) == docs@[found[k]],
                decreases list@.len() - i,
            {
                proof {
                    assert(found[i as int] == list@[i as int]);
                    assert(found.contains(found[i as int]));
                }
                r.push(&docs[list[i]]);
                i += 1;
            }
        },
        None => {},
    }
    r
}

} // verus!
