//! Folding the documents of one product family into one document.
//!
//! Documents with the same manufacturer and the same product name, to
//! the letter, are one family.

use crate::doc::{
    doc_views, source_views, tagged_views, variant_views, DocId, DocView, FileMeta, Locale,
    LuminaireDoc, SourceRef, SourceView, VariantDoc, VariantView,
};
use crate::doc_id::{blake3_digest, hash_bytes};
use crate::hex::{hex_is_injective, hex_of, hex_text};
use crate::hits::{least, variant_total};
use crate::ids::{insert_id, rising, IdList};
use crate::sets::{insert_tagged, insert_text, rising_tagged, rising_texts};
use crate::text::{copy_opt_text, opt_text, push_text, texts};
use vstd::hash_map::StringHashMap;
use vstd::prelude::*;
use vstd::utf8::encode_utf8;

verus! {

/// What a folding did.
#[derive(Clone, Copy, PartialEq, Eq, Debug, Structural)]
pub struct FoldStats {
    /// Documents before.
    pub input_docs: usize,
    /// Documents after.
    pub output_docs: usize,
    /// Variants before.
    pub input_variants: usize,
    /// Variants after.
    pub output_variants: usize,
    /// Identities that resolve to a family.
    pub aliases: usize,
}

// ---------------------------------------------------------------------
// Families
// ---------------------------------------------------------------------

/// The family of a document: its manufacturer and its product.
pub open spec fn family_of(d: DocView) -> (Seq<char>, Seq<char>) {
    (d.manufacturer, d.product)
}

/// The families of several documents, in the order they first occur.
pub open spec fn families(docs: Seq<DocView>) -> Seq<(Seq<char>, Seq<char>)>
    decreases docs.len(),
{
    if docs.len() == 0 {
        Seq::empty()
    } else {
        let front = families(docs.drop_last());
        if front.contains(family_of(docs.last())) {
            front
        } else {
            front.push(family_of(docs.last()))
        }
    }
}

/// The documents of one family, in order.
pub open spec fn members(docs: Seq<DocView>, family: (Seq<char>, Seq<char>)) -> Seq<DocView>
    decreases docs.len(),
{
    if docs.len() == 0 {
        Seq::empty()
    } else if family_of(docs.last()) == family {
        members(docs.drop_last(), family).push(docs.last())
    } else {
        members(docs.drop_last(), family)
    }
}

/// The order of byte strings.
pub open spec fn bytes_lt(a: Seq<u8>, b: Seq<u8>) -> bool
    decreases a.len(),
{
    if b.len() == 0 {
        false
    } else if a.len() == 0 {
        true
    } else if a[0] != b[0] {
        a[0] < b[0]
    } else {
        bytes_lt(a.drop_first(), b.drop_first())
    }
}

/// `s` with `d` behind the last document whose identity is not greater.
pub open spec fn placed(s: Seq<DocView>, d: DocView) -> Seq<DocView>
    decreases s.len(),
{
    if s.len() == 0 || !bytes_lt(d.id, s.last().id) {
        s.push(d)
    } else {
        placed(s.drop_last(), d).push(s.last())
    }
}

/// The documents in the order of their identities; those with the same
/// identity keep their order.
pub open spec fn by_identity(s: Seq<DocView>) -> Seq<DocView>
    decreases s.len(),
{
    if s.len() == 0 {
        Seq::empty()
    } else {
        placed(by_identity(s.drop_last()), s.last())
    }
}

/// The identity of a family.
pub open spec fn family_digest(family: (Seq<char>, Seq<char>)) -> Seq<u8> {
    blake3_digest(encode_utf8("family:"@ + family.0 + ":"@ + family.1))
}

/// The first value that a document of `s` has.
pub open spec fn first_of<T>(s: Seq<DocView>, pick: spec_fn(DocView) -> Option<T>) -> Option<T>
    decreases s.len(),
{
    if s.len() == 0 {
        None
    } else {
        match first_of(s.drop_last(), pick) {
            Some(x) => Some(x),
            None => pick(s.last()),
        }
    }
}

/// Reads the IP code.
pub open spec fn ip_of() -> spec_fn(DocView) -> Option<u8> {
    |d: DocView| d.ip_code
}

/// Reads the safety class.
pub open spec fn safety_of() -> spec_fn(DocView) -> Option<u8> {
    |d: DocView| d.safety_class
}

/// Reads the IK rating.
pub open spec fn ik_of() -> spec_fn(DocView) -> Option<u8> {
    |d: DocView| d.ik_rating
}

/// Reads the product form.
pub open spec fn form_of() -> spec_fn(DocView) -> Option<u8> {
    |d: DocView| d.product_form
}

/// Reads the trade item number.
pub open spec fn gtin_of() -> spec_fn(DocView) -> Option<Seq<char>> {
    |d: DocView| d.gtin
}

/// Reads the product code.
pub open spec fn code_of() -> spec_fn(DocView) -> Option<Seq<char>> {
    |d: DocView| d.product_code
}

/// Reads the format version.
pub open spec fn version_of() -> spec_fn(DocView) -> Option<Seq<char>> {
    |d: DocView| d.file_meta.format_version
}

/// The sizes of the files together.
pub open spec fn total_size(s: Seq<DocView>) -> nat
    decreases s.len(),
{
    if s.len() == 0 {
        0
    } else {
        total_size(s.drop_last()) + s.last().file_meta.size_bytes as nat
    }
}

/// The later of two times.
pub open spec fn later(a: Option<u64>, b: Option<u64>) -> Option<u64> {
    match (a, b) {
        (Some(x), Some(y)) => Some(
            if x >= y {
                x
            } else {
                y
            },
        ),
        (Some(x), None) => Some(x),
        (None, y) => y,
    }
}

/// The time of the last change.
pub open spec fn latest(s: Seq<DocView>) -> Option<u64>
    decreases s.len(),
{
    if s.len() == 0 {
        None
    } else {
        later(latest(s.drop_last()), s.last().file_meta.mtime_epoch_s)
    }
}

/// Where each of the documents came from.
pub open spec fn sources(s: Seq<DocView>) -> Seq<SourceView> {
    s.map_values(|d: DocView| d.source)
}

/// A variant with a new number and a new source.
pub open spec fn renumbered(v: VariantView, number: int, source: int) -> VariantView {
    VariantView { id: (number % 65536) as u16, source_index: (source % 65536) as u16, ..v }
}

/// The variants of several documents in a row, numbered anew, each with
/// the position of its document as its source.
pub open spec fn joined_variants(s: Seq<DocView>) -> Seq<VariantView>
    decreases s.len(),
{
    if s.len() == 0 {
        Seq::empty()
    } else {
        let front = joined_variants(s.drop_last());
        front + Seq::new(
            s.last().variants.len(),
            |k: int| renumbered(s.last().variants[k], front.len() + k, s.len() - 1),
        )
    }
}

/// Whether one of the documents has the application.
pub open spec fn has_application(s: Seq<DocView>, x: u8) -> bool {
    exists|i: int| 0 <= i < s.len() && (#[trigger] s[i]).applications.contains(x)
}

/// Whether one of the documents has the label.
pub open spec fn has_label(s: Seq<DocView>, x: u8) -> bool {
    exists|i: int| 0 <= i < s.len() && (#[trigger] s[i]).labels.contains(x)
}

/// Whether one of the documents has the adjustability.
pub open spec fn has_adjustability(s: Seq<DocView>, x: u8) -> bool {
    exists|i: int| 0 <= i < s.len() && (#[trigger] s[i]).adjustability.contains(x)
}

/// Whether one of the documents has the keyword.
pub open spec fn has_keyword(s: Seq<DocView>, x: Seq<char>) -> bool {
    exists|i: int| 0 <= i < s.len() && (#[trigger] s[i]).keywords.contains(x)
}

/// Whether one of the documents has the description.
pub open spec fn has_description(s: Seq<DocView>, x: (Locale, Seq<char>)) -> bool {
    exists|i: int| 0 <= i < s.len() && (#[trigger] s[i]).descriptions.contains(x)
}

/// Whether `d` is what the documents `s`, in the order of their
/// identities, fold into.
pub open spec fn is_merged(d: DocView, family: (Seq<char>, Seq<char>), s: Seq<DocView>) -> bool {
    &&& d.id == family_digest(family)
    &&& d.source == s[0].source
    &&& d.source_paths == sources(s)
    &&& d.manufacturer == family.0
    &&& d.product == family.1
    &&& d.gtin == first_of(s, gtin_of())
    &&& d.product_code == first_of(s, code_of())
    &&& rising_tagged(d.descriptions)
    &&& forall|x: (Locale, Seq<char>)| #[trigger]
        d.descriptions.contains(x) <==> has_description(s, x)
    &&& rising_texts(d.keywords)
    &&& forall|x: Seq<char>| #[trigger] d.keywords.contains(x) <==> has_keyword(s, x)
    &&& rising(d.applications)
    &&& forall|x: u8| #[trigger] d.applications.contains(x) <==> has_application(s, x)
    &&& rising(d.labels)
    &&& forall|x: u8| #[trigger] d.labels.contains(x) <==> has_label(s, x)
    &&& rising(d.adjustability)
    &&& forall|x: u8| #[trigger] d.adjustability.contains(x) <==> has_adjustability(s, x)
    &&& d.ip_code == first_of(s, ip_of())
    &&& d.safety_class == first_of(s, safety_of())
    &&& d.ik_rating == first_of(s, ik_of())
    &&& d.product_form == first_of(s, form_of())
    &&& d.variants == joined_variants(s)
    &&& d.file_meta.size_bytes == least(total_size(s) as int, u64::MAX as int)
    &&& d.file_meta.mtime_epoch_s == latest(s)
    &&& d.file_meta.format_version == first_of(s, version_of())
}

/// A document that is alone in its family, with its source among its
/// sources.
pub open spec fn alone(d: DocView) -> DocView {
    DocView {
        source_paths: if d.source_paths.len() == 0 {
            seq![d.source]
        } else {
            d.source_paths
        },
        ..d
    }
}

/// Whether `d` is what the members `group` of a family fold into.
pub open spec fn is_family_doc(
    d: DocView,
    family: (Seq<char>, Seq<char>),
    group: Seq<DocView>,
) -> bool {
    if group.len() == 1 {
        d == alone(group[0])
    } else {
        is_merged(d, family, by_identity(group))
    }
}

/// Whether `out` is what `docs` fold into: one document for each family,
/// in the order the families first occur.
pub open spec fn is_folding(out: Seq<DocView>, docs: Seq<DocView>) -> bool {
    &&& out.len() == families(docs).len()
    &&& forall|i: int|
        0 <= i < out.len() ==> is_family_doc(
            #[trigger] out[i],
            families(docs)[i],
            members(docs, families(docs)[i]),
        )
}

// ---------------------------------------------------------------------
// Aliases
// ---------------------------------------------------------------------

/// The identity of what the members of a family fold into.
pub open spec fn folded_id(family: (Seq<char>, Seq<char>), group: Seq<DocView>) -> Seq<u8> {
    if group.len() == 1 {
        group[0].id
    } else {
        family_digest(family)
    }
}

/// `m` with every document's identity leading to `to`.
pub open spec fn all_lead_to(m: Map<Seq<u8>, Seq<u8>>, s: Seq<DocView>, to: Seq<u8>) -> Map<
    Seq<u8>,
    Seq<u8>,
>
    decreases s.len(),
{
    if s.len() == 0 {
        m
    } else {
        all_lead_to(m, s.drop_last(), to).insert(s.last().id, to)
    }
}

/// The identities of the first `n` families' members, each leading to
/// its family, and the families' own identities leading to themselves.
/// Where an identity occurs in two families, the later one has it.
pub open spec fn aliases_of(docs: Seq<DocView>, n: int) -> Map<Seq<u8>, Seq<u8>>
    decreases n,
{
    if n <= 0 {
        Map::empty()
    } else {
        let family = families(docs)[n - 1];
        let group = members(docs, family);
        let to = folded_id(family, group);
        let ordered = if group.len() == 1 {
            group
        } else {
            by_identity(group)
        };
        all_lead_to(aliases_of(docs, n - 1), ordered, to).insert(to, to)
    }
}

/// Which identity leads to which. An identity that was set twice leads
/// where it was set to last.
pub struct Aliases {
    log: Vec<(DocId, DocId)>,
    at: StringHashMap<DocId>,
    distinct: usize,
}

/// The map that a log of settings leaves.
pub open spec fn log_map(log: Seq<(DocId, DocId)>) -> Map<Seq<u8>, Seq<u8>>
    decreases log.len(),
{
    if log.len() == 0 {
        Map::empty()
    } else {
        log_map(log.drop_last()).insert(log.last().0@, log.last().1@)
    }
}

impl View for Aliases {
    type V = Map<Seq<u8>, Seq<u8>>;

    closed spec fn view(&self) -> Map<Seq<u8>, Seq<u8>> {
        log_map(self.log@)
    }
}

impl Aliases {
    /// Whether the parts of the value agree.
    pub closed spec fn well_formed(&self) -> bool {
        let m = log_map(self.log@);
        &&& forall|id: DocId| #[trigger] m.contains_key(id@) <==> self.at@.contains_key(hex_text(id@))
        &&& forall|id: DocId| #[trigger]
            m.contains_key(id@) ==> self.at@[hex_text(id@)]@ == m[id@]
        &&& m.dom().finite()
        &&& self.distinct == m.dom().len()
        &&& self.distinct <= self.log@.len()
    }

    /// No identity leads anywhere.
    pub fn new() -> (r: Aliases)
        ensures
            r.well_formed(),
            r@ == Map::<Seq<u8>, Seq<u8>>::empty(),
    {
        Aliases { log: Vec::new(), at: StringHashMap::new(), distinct: 0 }
    }

    /// Lets `from` lead to `to`.
    pub fn set(&mut self, from: DocId, to: DocId)
        requires
            old(self).well_formed(),
        ensures
            final(self).well_formed(),
            final(self)@ == old(self)@.insert(from@, to@),
    {
        let ghost m = log_map(self.log@);
        let key: String = hex_of(&from);
        let fresh: bool = !self.at.contains_key(key.as_str());
        let ghost held = self.at@;
        self.at.insert(key, to);
        self.log.push((from, to));
        let n: usize = self.log.len();
        if fresh {
            assert(self.distinct + 1 <= n);
            self.distinct = self.distinct + 1;
        }
        proof {
            let log = self.log@;
            assert(log.drop_last() =~= old(self).log@);
            assert(log_map(log) == m.insert(from@, to@));
            assert forall|id: DocId| #[trigger] log_map(log).contains_key(id@)
                <==> self.at@.contains_key(hex_text(id@)) by {
                assert(m.contains_key(id@) <==> held.contains_key(hex_text(id@)));
                if hex_text(id@) == hex_text(from@) {
                    hex_is_injective(id@, from@);
                }
            }
            assert forall|id: DocId| #[trigger] log_map(log).contains_key(id@) implies self.at@[hex_text(
                id@,
            )]@ == log_map(log)[id@] by {
                assert(m.contains_key(id@) <==> held.contains_key(hex_text(id@)));
                if hex_text(id@) == hex_text(from@) {
                    hex_is_injective(id@, from@);
                }
            }
            assert(m.contains_key(from@) <==> held.contains_key(hex_text(from@)));
            assert(m.insert(from@, to@).dom() =~= m.dom().insert(from@));
        }
    }

    /// Where an identity leads.
    pub fn get(&self, id: &DocId) -> (r: Option<DocId>)
        requires
            self.well_formed(),
        ensures
            match r {
                Some(to) => self@.contains_key(id@) && self@[id@] == to@,
                None => !self@.contains_key(id@),
            },
    {
        let key: String = hex_of(id);
        proof {
            let m = log_map(self.log@);
            assert(m.contains_key(id@) <==> self.at@.contains_key(hex_text(id@)));
        }
        match self.at.get(key.as_str()) {
            Some(to) => Some(*to),
            None => None,
        }
    }

    /// How many identities lead somewhere.
    pub fn len(&self) -> (r: usize)
        requires
            self.well_formed(),
        ensures
            r == self@.dom().len(),
    {
        self.distinct
    }

    /// How often an identity was set.
    pub(crate) fn settings(&self) -> (r: usize)
        ensures
            r == self.settings_view().len(),
    {
        self.log.len()
    }

    /// The settings in the order they were made.
    pub closed spec fn settings_view(&self) -> Seq<(DocId, DocId)> {
        self.log@
    }

    /// The map is what the settings leave.
    pub proof fn settings_leave_the_map(&self)
        ensures
            self@ == log_map(self.settings_view()),
    {
    }

    /// The `i`th setting.
    pub(crate) fn setting(&self, i: usize) -> (r: (DocId, DocId))
        requires
            i < self.settings_view().len(),
        ensures
            r == self.settings_view()[i as int],
    {
        self.log[i]
    }
}

// ---------------------------------------------------------------------
// Laws
// ---------------------------------------------------------------------

/// The order of byte strings is irreflexive.
pub proof fn bytes_lt_irreflexive(a: Seq<u8>)
    ensures
        !bytes_lt(a, a),
    decreases a.len(),
{
    if a.len() > 0 {
        bytes_lt_irreflexive(a.drop_first());
    }
}

/// The order of byte strings is transitive.
pub proof fn bytes_lt_transitive(a: Seq<u8>, b: Seq<u8>, c: Seq<u8>)
    requires
        bytes_lt(a, b),
        bytes_lt(b, c),
    ensures
        bytes_lt(a, c),
    decreases a.len(),
{
    if a.len() > 0 && b.len() > 0 && c.len() > 0 && a[0] == b[0] && b[0] == c[0] {
        bytes_lt_transitive(a.drop_first(), b.drop_first(), c.drop_first());
    }
}

/// Of two different byte strings one stands before the other.
pub proof fn bytes_lt_total(a: Seq<u8>, b: Seq<u8>)
    ensures
        bytes_lt(a, b) || bytes_lt(b, a) || a == b,
    decreases a.len(),
{
    if a.len() > 0 && b.len() > 0 && a[0] == b[0] {
        bytes_lt_total(a.drop_first(), b.drop_first());
        if a.drop_first() == b.drop_first() {
            assert(a =~= seq![a[0]] + a.drop_first());
            assert(b =~= seq![b[0]] + b.drop_first());
        }
    } else if a.len() == 0 && b.len() == 0 {
        assert(a =~= b);
    }
}

/// Whether no document stands behind one with a greater identity.
pub open spec fn in_identity_order(s: Seq<DocView>) -> bool {
    forall|i: int, j: int|
        0 <= i < j < s.len() ==> !bytes_lt((#[trigger] s[j]).id, (#[trigger] s[i]).id)
}

/// What `placed` keeps: the order, and the documents.
proof fn placed_keeps(s: Seq<DocView>, d: DocView)
    requires
        in_identity_order(s),
    ensures
        in_identity_order(placed(s, d)),
        placed(s, d).to_multiset() == s.to_multiset().insert(d),
        placed(s, d).len() == s.len() + 1,
        forall|i: int|
            0 <= i < placed(s, d).len() ==> (#[trigger] placed(s, d)[i]) == d || exists|j: int|
                0 <= j < s.len() && s[j] == placed(s, d)[i],
    decreases s.len(),
{
    broadcast use vstd::seq_lib::group_to_multiset_ensures;

    if s.len() == 0 || !bytes_lt(d.id, s.last().id) {
        let t = s.push(d);
        assert forall|i: int, j: int| 0 <= i < j < t.len() implies !bytes_lt(
            (#[trigger] t[j]).id,
            (#[trigger] t[i]).id,
        ) by {
            if j == s.len() {
                let last = s[s.len() - 1];
                if bytes_lt(d.id, s[i].id) {
                    if i < s.len() - 1 {
                        assert(!bytes_lt(last.id, s[i].id));
                        bytes_lt_total(last.id, s[i].id);
                        if bytes_lt(s[i].id, last.id) {
                            bytes_lt_transitive(d.id, s[i].id, last.id);
                        }
                    }
                }
            } else {
                assert(!bytes_lt(s[j].id, s[i].id));
            }
        }
        assert forall|i: int| 0 <= i < t.len() implies (#[trigger] t[i]) == d || exists|j: int|
            0 <= j < s.len() && s[j] == t[i] by {
            if i < s.len() {
                assert(s[i] == t[i]);
            }
        }
    } else {
        let front = s.drop_last();
        let last = s.last();
        assert(in_identity_order(front)) by {
            assert forall|i: int, j: int| 0 <= i < j < front.len() implies !bytes_lt(
                (#[trigger] front[j]).id,
                (#[trigger] front[i]).id,
            ) by {
                assert(!bytes_lt(s[j].id, s[i].id));
            }
        }
        placed_keeps(front, d);
        let p = placed(front, d);
        let t = p.push(last);
        assert(s =~= front.push(last));
        assert(front.to_multiset().insert(last).insert(d) =~= front.to_multiset().insert(d).insert(
            last,
        ));
        assert forall|i: int, j: int| 0 <= i < j < t.len() implies !bytes_lt(
            (#[trigger] t[j]).id,
            (#[trigger] t[i]).id,
        ) by {
            if j == p.len() {
                if p[i] == d {
                    if bytes_lt(last.id, d.id) {
                        bytes_lt_transitive(last.id, d.id, last.id);
                        bytes_lt_irreflexive(last.id);
                    }
                } else {
                    let k = choose|k: int| 0 <= k < front.len() && front[k] == p[i];
                    assert(!bytes_lt(s[s.len() - 1].id, s[k].id));
                }
            } else {
                assert(!bytes_lt(p[j].id, p[i].id));
            }
        }
        assert forall|i: int| 0 <= i < t.len() implies (#[trigger] t[i]) == d || exists|j: int|
            0 <= j < s.len() && s[j] == t[i] by {
            if i < p.len() {
                assert(t[i] == p[i]);
                if p[i] != d {
                    let k = choose|k: int| 0 <= k < front.len() && front[k] == p[i];
                    assert(s[k] == t[i]);
                }
            } else {
                assert(s[s.len() - 1] == t[i]);
            }
        }
    }
}

/// Ordering by identity orders, and keeps the documents.
pub proof fn by_identity_orders(s: Seq<DocView>)
    ensures
        in_identity_order(by_identity(s)),
        by_identity(s).to_multiset() == s.to_multiset(),
        by_identity(s).len() == s.len(),
    decreases s.len(),
{
    broadcast use vstd::seq_lib::group_to_multiset_ensures;

    if s.len() > 0 {
        by_identity_orders(s.drop_last());
        placed_keeps(by_identity(s.drop_last()), s.last());
        assert(s =~= s.drop_last().push(s.last()));
    } else {
        assert(by_identity(s) =~= s);
    }
}

/// The variants of several documents in a row are as many as the
/// documents have.
pub proof fn joined_variants_count(s: Seq<DocView>)
    ensures
        joined_variants(s).len() == variant_total(s),
    decreases s.len(),
{
    if s.len() > 0 {
        joined_variants_count(s.drop_last());
    }
}

/// Placing a document counts its variants in.
proof fn placed_total(s: Seq<DocView>, d: DocView)
    ensures
        variant_total(placed(s, d)) == variant_total(s) + d.variants.len(),
    decreases s.len(),
{
    if s.len() == 0 || !bytes_lt(d.id, s.last().id) {
        assert(s.push(d).drop_last() =~= s);
    } else {
        placed_total(s.drop_last(), d);
        let p = placed(s.drop_last(), d);
        assert(p.push(s.last()).drop_last() =~= p);
    }
}

/// Ordering by identity does not change the number of variants.
proof fn by_identity_total(s: Seq<DocView>)
    ensures
        variant_total(by_identity(s)) == variant_total(s),
    decreases s.len(),
{
    if s.len() > 0 {
        by_identity_total(s.drop_last());
        placed_total(by_identity(s.drop_last()), s.last());
    }
}

/// What a family folds into has the variants of its members.
pub proof fn family_keeps_variants(
    d: DocView,
    family: (Seq<char>, Seq<char>),
    group: Seq<DocView>,
)
    requires
        is_family_doc(d, family, group),
    ensures
        d.variants.len() == variant_total(group),
{
    if group.len() == 1 {
        assert(group.drop_last() =~= Seq::empty());
        assert(variant_total(group.drop_last()) == 0);
    } else {
        joined_variants_count(by_identity(group));
        by_identity_total(group);
    }
}

/// The variants of the first `n` families' members.
spec fn families_total(docs: Seq<DocView>, fams: Seq<(Seq<char>, Seq<char>)>, n: int) -> nat
    decreases n,
{
    if n <= 0 {
        0
    } else {
        families_total(docs, fams, n - 1) + variant_total(members(docs, fams[n - 1]))
    }
}

/// No family occurs twice, and every document's family occurs.
pub proof fn families_are_exact(docs: Seq<DocView>)
    ensures
        families(docs).no_duplicates(),
        forall|i: int| 0 <= i < docs.len() ==> families(docs).contains(family_of(#[trigger] docs[i])),
        families(docs).len() <= docs.len(),
        forall|k: int|
            0 <= k < families(docs).len() ==> members(docs, #[trigger] families(docs)[k]).len() > 0,
    decreases docs.len(),
{
    if docs.len() > 0 {
        let front = docs.drop_last();
        let f = families(front);
        let key = family_of(docs.last());
        families_are_exact(front);
        assert forall|i: int| 0 <= i < docs.len() implies families(docs).contains(
            family_of(#[trigger] docs[i]),
        ) by {
            if i < front.len() {
                assert(front[i] == docs[i]);
                let k = choose|k: int| 0 <= k < f.len() && f[k] == family_of(docs[i]);
                assert(families(docs)[k] == f[k]);
            } else if !f.contains(key) {
                assert(families(docs)[f.len() as int] == key);
            }
        }
        assert forall|k: int| 0 <= k < families(docs).len() implies members(
            docs,
            #[trigger] families(docs)[k],
        ).len() > 0 by {
            if k < f.len() {
                assert(families(docs)[k] == f[k]);
                assert(members(front, f[k]).len() > 0);
            }
        }
    }
}

/// Adding a document adds its variants to its family alone.
proof fn families_total_step(
    docs: Seq<DocView>,
    fams: Seq<(Seq<char>, Seq<char>)>,
    n: int,
)
    requires
        docs.len() > 0,
        0 <= n <= fams.len(),
        fams.no_duplicates(),
    ensures
        families_total(docs, fams, n) == families_total(docs.drop_last(), fams, n)
            + if fams.take(n).contains(family_of(docs.last())) {
            docs.last().variants.len()
        } else {
            0
        },
    decreases n,
{
    if n > 0 {
        families_total_step(docs, fams, n - 1);
        let key = family_of(docs.last());
        let m = members(docs.drop_last(), fams[n - 1]);
        assert(m.push(docs.last()).drop_last() =~= m);
        let long = fams.take(n);
        let short = fams.take(n - 1);
        if fams[n - 1] == key {
            assert(long[n - 1] == key);
            if short.contains(key) {
                let k = choose|k: int| 0 <= k < short.len() && short[k] == key;
                assert(fams[k] == fams[n - 1]);
            }
        } else {
            if long.contains(key) {
                let k = choose|k: int| 0 <= k < long.len() && long[k] == key;
                assert(short[k] == key);
            }
            if short.contains(key) {
                let k = choose|k: int| 0 <= k < short.len() && short[k] == key;
                assert(long[k] == key);
            }
        }
    }
}

/// A family without members has no variants.
proof fn members_absent(docs: Seq<DocView>, family: (Seq<char>, Seq<char>))
    requires
        forall|i: int| 0 <= i < docs.len() ==> family_of(#[trigger] docs[i]) != family,
    ensures
        members(docs, family).len() == 0,
    decreases docs.len(),
{
    if docs.len() > 0 {
        assert forall|i: int| 0 <= i < docs.drop_last().len() implies family_of(
            #[trigger] docs.drop_last()[i],
        ) != family by {
            assert(docs.drop_last()[i] == docs[i]);
        }
        members_absent(docs.drop_last(), family);
    }
}

/// Families counted over a longer list of families.
proof fn families_total_extends(
    docs: Seq<DocView>,
    a: Seq<(Seq<char>, Seq<char>)>,
    b: Seq<(Seq<char>, Seq<char>)>,
    n: int,
)
    requires
        0 <= n <= a.len(),
        n <= b.len(),
        a.take(n) == b.take(n),
    ensures
        families_total(docs, a, n) == families_total(docs, b, n),
    decreases n,
{
    if n > 0 {
        assert(a.take(n)[n - 1] == b.take(n)[n - 1]);
        assert(a.take(n - 1) =~= a.take(n).take(n - 1));
        assert(b.take(n - 1) =~= b.take(n).take(n - 1));
        families_total_extends(docs, a, b, n - 1);
    }
}

/// The families' variants together are the documents' variants.
proof fn families_total_is_total(docs: Seq<DocView>)
    ensures
        families_total(docs, families(docs), families(docs).len() as int) == variant_total(docs),
    decreases docs.len(),
{
    if docs.len() > 0 {
        let front = docs.drop_last();
        let f = families(front);
        let g = families(docs);
        let key = family_of(docs.last());
        families_total_is_total(front);
        families_are_exact(docs);
        families_are_exact(front);
        families_total_step(docs, g, g.len() as int);
        assert(g.take(g.len() as int) =~= g);
        assert(families(docs).contains(family_of(docs[docs.len() - 1])));
        if !f.contains(key) {
            assert(g =~= f.push(key));
            assert(g.take(f.len() as int) =~= f.take(f.len() as int));
            families_total_extends(front, f, g, f.len() as int);
            assert forall|i: int| 0 <= i < front.len() implies family_of(#[trigger] front[i])
                != key by {
                assert(f.contains(family_of(front[i])));
            }
            members_absent(front, key);
            assert(variant_total(members(front, key)) == 0);
        }
    }
}

/// The first `n` folded documents have the variants of the first `n`
/// families' members.
proof fn folding_total(out: Seq<DocView>, docs: Seq<DocView>, n: int)
    requires
        is_folding(out, docs),
        0 <= n <= out.len(),
    ensures
        variant_total(out.take(n)) == families_total(docs, families(docs), n),
    decreases n,
{
    if n > 0 {
        folding_total(out, docs, n - 1);
        assert(out.take(n).drop_last() =~= out.take(n - 1));
        assert(out.take(n).last() == out[n - 1]);
        family_keeps_variants(
            out[n - 1],
            families(docs)[n - 1],
            members(docs, families(docs)[n - 1]),
        );
    } else {
        assert(out.take(0) =~= Seq::empty());
    }
}

/// Folding drops no variant.
pub proof fn folding_keeps_variants(out: Seq<DocView>, docs: Seq<DocView>)
    requires
        is_folding(out, docs),
    ensures
        variant_total(out) == variant_total(docs),
{
    folding_total(out, docs, out.len() as int);
    assert(out.take(out.len() as int) =~= out);
    families_total_is_total(docs);
}

/// Every variant of a merged document leads back to the file that it
/// came from, as long as no more files than sixteen bits can number
/// contributed.
pub proof fn variants_lead_to_their_source(s: Seq<DocView>, k: int) -> (origin: (int, int))
    requires
        0 <= k < joined_variants(s).len(),
        s.len() <= 65536,
    ensures
        0 <= origin.0 < s.len(),
        0 <= origin.1 < s[origin.0].variants.len(),
        joined_variants(s)[k] == renumbered(s[origin.0].variants[origin.1], k, origin.0),
        joined_variants(s)[k].source_index == origin.0,
        sources(s)[joined_variants(s)[k].source_index as int] == s[origin.0].source,
    decreases s.len(),
{
    let front = joined_variants(s.drop_last());
    if k < front.len() {
        let o = variants_lead_to_their_source(s.drop_last(), k);
        assert(s.drop_last()[o.0] == s[o.0]);
        o
    } else {
        (s.len() - 1, k - front.len())
    }
}

/// Every member of the families counted so far has an alias.
proof fn aliases_reach(docs: Seq<DocView>, n: int, g: int, j: int)
    requires
        0 <= g < n <= families(docs).len(),
        0 <= j < members(docs, families(docs)[g]).len(),
    ensures
        aliases_of(docs, n).contains_key(members(docs, families(docs)[g])[j].id),
    decreases n,
{
    let family = families(docs)[n - 1];
    let group = members(docs, family);
    let to = folded_id(family, group);
    let ordered = if group.len() == 1 {
        group
    } else {
        by_identity(group)
    };
    if g < n - 1 {
        aliases_reach(docs, n - 1, g, j);
        all_lead_to_keeps(
            aliases_of(docs, n - 1),
            ordered,
            to,
            members(docs, families(docs)[g])[j].id,
        );
    } else {
        let d = group[j];
        if group.len() != 1 {
            by_identity_orders(group);
            assert(group.to_multiset().count(d) > 0) by {
                broadcast use vstd::seq_lib::group_to_multiset_ensures;

                assert(group.contains(d));
            }
            assert(ordered.contains(d)) by {
                broadcast use vstd::seq_lib::group_to_multiset_ensures;

            }
        }
        let k = choose|k: int| 0 <= k < ordered.len() && ordered[k] == d;
        all_lead_to_sets(aliases_of(docs, n - 1), ordered, to, k);
    }
}

proof fn all_lead_to_keeps(
    m: Map<Seq<u8>, Seq<u8>>,
    s: Seq<DocView>,
    to: Seq<u8>,
    id: Seq<u8>,
)
    requires
        m.contains_key(id),
    ensures
        all_lead_to(m, s, to).contains_key(id),
    decreases s.len(),
{
    if s.len() > 0 {
        all_lead_to_keeps(m, s.drop_last(), to, id);
    }
}

proof fn all_lead_to_sets(m: Map<Seq<u8>, Seq<u8>>, s: Seq<DocView>, to: Seq<u8>, k: int)
    requires
        0 <= k < s.len(),
    ensures
        all_lead_to(m, s, to).contains_key(s[k].id),
        all_lead_to(m, s, to)[s[k].id] == to,
    decreases s.len(),
{
    if k < s.len() - 1 {
        all_lead_to_sets(m, s.drop_last(), to, k);
        assert(s.drop_last()[k] == s[k]);
    }
}

/// The position of a document among the members of its family.
proof fn member_position(docs: Seq<DocView>, i: int) -> (j: int)
    requires
        0 <= i < docs.len(),
    ensures
        0 <= j < members(docs, family_of(docs[i])).len(),
        members(docs, family_of(docs[i]))[j] == docs[i],
    decreases docs.len(),
{
    let family = family_of(docs[i]);
    if i == docs.len() - 1 {
        members(docs, family).len() - 1
    } else {
        let j = member_position(docs.drop_last(), i);
        assert(docs.drop_last()[i] == docs[i]);
        let front = members(docs.drop_last(), family);
        if family_of(docs.last()) == family {
            assert(members(docs, family) == front.push(docs.last()));
        }
        j
    }
}

/// The identity of every document leads to a family after folding.
pub proof fn every_identity_has_an_alias(docs: Seq<DocView>, i: int)
    requires
        0 <= i < docs.len(),
    ensures
        aliases_of(docs, families(docs).len() as int).contains_key(docs[i].id),
{
    families_are_exact(docs);
    let f = families(docs);
    assert(f.contains(family_of(docs[i])));
    let g = choose|g: int| 0 <= g < f.len() && f[g] == family_of(docs[i]);
    let j = member_position(docs, i);
    aliases_reach(docs, f.len() as int, g, j);
}

/// An alias leads to the identity of a folded document.
pub proof fn aliases_lead_to_families(docs: Seq<DocView>, n: int, id: Seq<u8>)
    requires
        0 <= n <= families(docs).len(),
        aliases_of(docs, n).contains_key(id),
    ensures
        exists|g: int|
            0 <= g < n && aliases_of(docs, n)[id] == folded_id(
                #[trigger] families(docs)[g],
                members(docs, families(docs)[g]),
            ),
    decreases n,
{
    if n > 0 {
        let family = families(docs)[n - 1];
        let group = members(docs, family);
        let to = folded_id(family, group);
        let ordered = if group.len() == 1 {
            group
        } else {
            by_identity(group)
        };
        let before = aliases_of(docs, n - 1);
        all_lead_to_or_keeps(before, ordered, to, id);
        if aliases_of(docs, n)[id] == to {
            assert(aliases_of(docs, n)[id] == folded_id(
                families(docs)[n - 1],
                members(docs, families(docs)[n - 1]),
            ));
        } else {
            aliases_lead_to_families(docs, n - 1, id);
            let g = choose|g: int|
                0 <= g < n - 1 && aliases_of(docs, n - 1)[id] == folded_id(
                    #[trigger] families(docs)[g],
                    members(docs, families(docs)[g]),
                );
            assert(aliases_of(docs, n)[id] == folded_id(
                families(docs)[g],
                members(docs, families(docs)[g]),
            ));
        }
    }
}

proof fn all_lead_to_or_keeps(
    m: Map<Seq<u8>, Seq<u8>>,
    s: Seq<DocView>,
    to: Seq<u8>,
    id: Seq<u8>,
)
    requires
        all_lead_to(m, s, to).insert(to, to).contains_key(id),
    ensures
        all_lead_to(m, s, to).insert(to, to)[id] == to || (m.contains_key(id) && all_lead_to(
            m,
            s,
            to,
        ).insert(to, to)[id] == m[id]),
    decreases s.len(),
{
    if s.len() > 0 && id != to && id != s.last().id {
        all_lead_to_or_keeps(m, s.drop_last(), to, id);
    }
}

/// Settings of other identities leave an identity where it leads.
proof fn all_lead_to_spares(m: Map<Seq<u8>, Seq<u8>>, s: Seq<DocView>, to: Seq<u8>, id: Seq<u8>)
    requires
        m.contains_key(id),
        forall|k: int| 0 <= k < s.len() ==> (#[trigger] s[k]).id != id,
    ensures
        all_lead_to(m, s, to).contains_key(id),
        all_lead_to(m, s, to)[id] == m[id],
    decreases s.len(),
{
    if s.len() > 0 {
        assert forall|k: int| 0 <= k < s.drop_last().len() implies (#[trigger] s.drop_last()[k]).id
            != id by {
            assert(s.drop_last()[k] == s[k]);
        }
        all_lead_to_spares(m, s.drop_last(), to, id);
    }
}

/// A member of a family is one of the documents, and of that family.
proof fn member_origin(docs: Seq<DocView>, family: (Seq<char>, Seq<char>), k: int) -> (j: int)
    requires
        0 <= k < members(docs, family).len(),
    ensures
        0 <= j < docs.len(),
        docs[j] == members(docs, family)[k],
        family_of(docs[j]) == family,
    decreases docs.len(),
{
    let front = members(docs.drop_last(), family);
    if k < front.len() {
        let j = member_origin(docs.drop_last(), family, k);
        assert(docs.drop_last()[j] == docs[j]);
        j
    } else {
        docs.len() - 1
    }
}

/// Ordering by identity gives no document that was not there.
proof fn ordered_origin(group: Seq<DocView>, k: int) -> (j: int)
    requires
        0 <= k < by_identity(group).len(),
    ensures
        0 <= j < group.len(),
        group[j] == by_identity(group)[k],
{
    by_identity_orders(group);
    let d = by_identity(group)[k];
    assert(group.contains(d)) by {
        broadcast use vstd::seq_lib::group_to_multiset_ensures;

        assert(by_identity(group).contains(d));
        assert(by_identity(group).to_multiset().count(d) > 0);
    }
    choose|j: int| 0 <= j < group.len() && group[j] == d
}

/// An identity leads where the last family that has it leads.
proof fn alias_stays(docs: Seq<DocView>, n: int, g: int, i: int)
    requires
        0 <= g < n <= families(docs).len(),
        0 <= i < docs.len(),
        families(docs)[g] == family_of(docs[i]),
        forall|j: int|
            0 <= j < docs.len() && (#[trigger] docs[j]).id == docs[i].id ==> family_of(docs[j])
                == family_of(docs[i]),
        forall|h: int|
            0 <= h < families(docs).len() && h != g ==> folded_id(
                #[trigger] families(docs)[h],
                members(docs, families(docs)[h]),
            ) != docs[i].id,
    ensures
        aliases_of(docs, n).contains_key(docs[i].id),
        aliases_of(docs, n)[docs[i].id] == folded_id(
            families(docs)[g],
            members(docs, families(docs)[g]),
        ),
    decreases n,
{
    let id = docs[i].id;
    let family = families(docs)[n - 1];
    let group = members(docs, family);
    let to = folded_id(family, group);
    let ordered = if group.len() == 1 {
        group
    } else {
        by_identity(group)
    };
    if g < n - 1 {
        alias_stays(docs, n - 1, g, i);
        families_are_exact(docs);
        assert forall|k: int| 0 <= k < ordered.len() implies (#[trigger] ordered[k]).id != id by {
            let m = if group.len() == 1 {
                k
            } else {
                ordered_origin(group, k)
            };
            let j = member_origin(docs, family, m);
            assert(family != families(docs)[g]);
        }
        all_lead_to_spares(aliases_of(docs, n - 1), ordered, to, id);
        assert(families(docs)[n - 1] == family);
    } else {
        let j = member_position(docs, i);
        let d = group[j];
        if group.len() != 1 {
            by_identity_orders(group);
            assert(group.to_multiset().count(d) > 0) by {
                broadcast use vstd::seq_lib::group_to_multiset_ensures;

                assert(group.contains(d));
            }
            assert(ordered.contains(d)) by {
                broadcast use vstd::seq_lib::group_to_multiset_ensures;

            }
        }
        let k = choose|k: int| 0 <= k < ordered.len() && ordered[k] == d;
        all_lead_to_sets(aliases_of(docs, n - 1), ordered, to, k);
    }
}

/// The identity of a document leads to the identity of what its family
/// folds into, where no other family has that identity.
pub proof fn identities_lead_to_their_family(docs: Seq<DocView>, g: int, i: int)
    requires
        0 <= g < families(docs).len(),
        0 <= i < docs.len(),
        families(docs)[g] == family_of(docs[i]),
        forall|j: int|
            0 <= j < docs.len() && (#[trigger] docs[j]).id == docs[i].id ==> family_of(docs[j])
                == family_of(docs[i]),
        forall|h: int|
            0 <= h < families(docs).len() && h != g ==> folded_id(
                #[trigger] families(docs)[h],
                members(docs, families(docs)[h]),
            ) != docs[i].id,
    ensures
        aliases_of(docs, families(docs).len() as int).contains_key(docs[i].id),
        aliases_of(docs, families(docs).len() as int)[docs[i].id] == folded_id(
            families(docs)[g],
            members(docs, families(docs)[g]),
        ),
{
    alias_stays(docs, families(docs).len() as int, g, i);
}

// ---------------------------------------------------------------------
// Folding
// ---------------------------------------------------------------------

/// Whether `a` stands before `b` in the order of identities.
pub fn id_before(a: &DocId, b: &DocId) -> (r: bool)
    ensures
        r == bytes_lt(a@, b@),
{
    let mut i: usize = 0;
    proof {
        assert(a@.skip(0) =~= a@);
        assert(b@.skip(0) =~= b@);
    }
    while i < 32
        invariant
            i <= 32,
            bytes_lt(a@, b@) == bytes_lt(a@.skip(i as int), b@.skip(i as int)),
        decreases 32 - i,
    {
        proof {
            assert(a@.skip(i as int).drop_first() =~= a@.skip(i + 1));
            assert(b@.skip(i as int).drop_first() =~= b@.skip(i + 1));
        }
        if a.0[i] != b.0[i] {
            return a.0[i] < b.0[i];
        }
        i += 1;
    }
    false
}

/// The identity of a family: the digest of the text `family:`, the
/// manufacturer, a colon and the product.
pub fn family_doc_id(manufacturer: &str, product: &str) -> (r: DocId)
    ensures
        r@ == family_digest((manufacturer@, product@)),
{
    let mut s: String = crate::text::owned("family:");
    push_text(&mut s, manufacturer);
    push_text(&mut s, ":");
    push_text(&mut s, product);
    hash_bytes(s.as_str().as_bytes())
}

/// The documents at several positions.
pub open spec fn docs_at(views: Seq<DocView>, at: Seq<usize>) -> Seq<DocView> {
    at.map_values(|i: usize| views[i as int])
}

/// Whether the positions lie within `n`.
pub open spec fn within(at: Seq<usize>, n: int) -> bool {
    forall|k: int| 0 <= k < at.len() ==> #[trigger] at[k] < n
}

/// The positions of several documents in the order of their identities.
fn order_by_identity(docs: &Vec<LuminaireDoc>, at: &Vec<usize>) -> (r: Vec<usize>)
    requires
        within(at@, docs@.len() as int),
    ensures
        within(r@, docs@.len() as int),
        docs_at(doc_views(docs@), r@) == by_identity(docs_at(doc_views(docs@), at@)),
        r@.len() == at@.len(),
{
    let ghost views = doc_views(docs@);
    let ghost all = docs_at(views, at@);
    let mut r: Vec<usize> = Vec::new();
    let mut i: usize = 0;
    proof {
        assert(docs_at(views, r@) =~= by_identity(all.take(0)));
    }
    while i < at.len()
        invariant
            i <= at@.len(),
            views == doc_views(docs@),
            all == docs_at(views, at@),
            within(at@, docs@.len() as int),
            within(r@, docs@.len() as int),
            r@.len() == i,
            docs_at(views, r@) == by_identity(all.take(i as int)),
        decreases at@.len() - i,
    {
        let d: usize = at[i];
        let ghost s = docs_at(views, r@);
        let ghost new = views[d as int];
        proof {
            assert(all.take(i + 1).drop_last() =~= all.take(i as int));
            assert(all.take(i + 1).last() == new);
            assert(new == docs@[d as int]@);
            assert(s.take(s.len() as int) =~= s);
            assert(placed(s, new) + s.skip(s.len() as int) =~= placed(s, new));
        }
        let mut pos: usize = r.len();
        while pos > 0 && id_before(&docs[d].id, &docs[r[pos - 1]].id)
            invariant
                pos <= r@.len(),
                d < docs@.len(),
                views == doc_views(docs@),
                s == docs_at(views, r@),
                new == docs@[d as int]@,
                within(r@, docs@.len() as int),
                placed(s, new) == placed(s.take(pos as int), new) + s.skip(pos as int),
            decreases pos,
        {
            proof {
                let t = s.take(pos as int);
                assert(t.last() == s[pos - 1]);
                assert(s[pos - 1] == views[r@[pos - 1] as int]);
                assert(views[r@[pos - 1] as int] == docs@[r@[pos - 1] as int]@);
                assert(t.drop_last() =~= s.take(pos - 1));
                assert(placed(s.take(pos - 1), new).push(t.last()) + s.skip(pos as int) =~= placed(
                    s.take(pos - 1),
                    new,
                ) + s.skip(pos - 1));
            }
            pos -= 1;
        }
        proof {
            let t = s.take(pos as int);
            if pos > 0 {
                assert(t.last() == s[pos - 1]);
                assert(s[pos - 1] == views[r@[pos - 1] as int]);
                assert(views[r@[pos - 1] as int] == docs@[r@[pos - 1] as int]@);
            }
            assert(placed(t, new) == t.push(new));
            assert(t.push(new) + s.skip(pos as int) =~= s.insert(pos as int, new));
        }
        let ghost held = r@;
        r.insert(pos, d);
        proof {
            assert(docs_at(views, r@) =~= s.insert(pos as int, new));
            assert forall|k: int| 0 <= k < r@.len() implies #[trigger] r@[k] < docs@.len() by {
                if k < pos {
                    assert(r@[k] == held[k]);
                } else if k > pos {
                    assert(r@[k] == held[k - 1]);
                }
            }
        }
        i += 1;
    }
    proof {
        assert(all.take(all.len() as int) =~= all);
    }
    r
}

/// The first of two optional texts that is there.
fn or_text(a: Option<String>, b: &Option<String>) -> (r: Option<String>)
    ensures
        opt_text(r) == (match opt_text(a) {
            Some(x) => Some(x),
            None => opt_text(*b),
        }),
{
    match a {
        Some(x) => Some(x),
        None => copy_opt_text(b),
    }
}

/// The first of two optional ids that is there.
pub fn or_id(a: Option<u8>, b: Option<u8>) -> (r: Option<u8>)
    ensures
        r == (match a {
            Some(x) => Some(x),
            None => b,
        }),
{
    match a {
        Some(x) => Some(x),
        None => b,
    }
}

/// The later of two times.
fn later_of(a: Option<u64>, b: Option<u64>) -> (r: Option<u64>)
    ensures
        r == later(a, b),
{
    match (a, b) {
        (Some(x), Some(y)) => Some(
            if x >= y {
                x
            } else {
                y
            },
        ),
        (Some(x), None) => Some(x),
        (None, y) => y,
    }
}

/// Adds every id of `from` to a rising list.
pub fn insert_ids(list: &mut IdList, from: &IdList)
    requires
        rising(old(list)@),
    ensures
        rising(final(list)@),
        forall|x: u8| #[trigger]
            final(list)@.contains(x) <==> old(list)@.contains(x) || from@.contains(x),
{
    let ghost start = list@;
    let mut i: usize = 0;
    while i < from.len()
        invariant
            i <= from@.len(),
            rising(list@),
            forall|x: u8| #[trigger]
                list@.contains(x) <==> start.contains(x) || from@.take(i as int).contains(x),
        decreases from@.len() - i,
    {
        let ghost before = list@;
        let id: u8 = from.get(i);
        insert_id(list, id);
        proof {
            assert forall|x: u8| #[trigger] list@.contains(x) <==> start.contains(x) || from@.take(
                i + 1,
            ).contains(x) by {
                assert(list@.contains(x) <==> before.contains(x) || x == id);
                assert(from@.take(i + 1) =~= from@.take(i as int).push(id));
                if from@.take(i as int).contains(x) {
                    let k = choose|k: int| 0 <= k < i && from@.take(i as int)[k] == x;
                    assert(from@.take(i + 1)[k] == x);
                }
                if x == id {
                    assert(from@.take(i + 1)[i as int] == x);
                }
            }
        }
        i += 1;
    }
    proof {
        assert(from@.take(from@.len() as int) =~= from@);
    }
}

/// Adds every text of `from` to a rising list.
pub fn insert_texts(list: &mut Vec<String>, from: &Vec<String>)
    requires
        rising_texts(texts(old(list)@)),
    ensures
        rising_texts(texts(final(list)@)),
        forall|x: Seq<char>| #[trigger]
            texts(final(list)@).contains(x) <==> texts(old(list)@).contains(x) || texts(
                from@,
            ).contains(x),
{
    let ghost start = texts(list@);
    let ghost all = texts(from@);
    let mut i: usize = 0;
    while i < from.len()
        invariant
            i <= from@.len(),
            all == texts(from@),
            rising_texts(texts(list@)),
            forall|x: Seq<char>| #[trigger]
                texts(list@).contains(x) <==> start.contains(x) || all.take(i as int).contains(x),
        decreases from@.len() - i,
    {
        let ghost before = texts(list@);
        let ghost s = all[i as int];
        insert_text(list, from[i].as_str());
        proof {
            assert(s == from@[i as int]@);
            assert forall|x: Seq<char>| #[trigger] texts(list@).contains(x) <==> start.contains(x)
                || all.take(i + 1).contains(x) by {
                assert(texts(list@).contains(x) <==> before.contains(x) || x == s);
                assert(all.take(i + 1) =~= all.take(i as int).push(s));
                if all.take(i as int).contains(x) {
                    let k = choose|k: int| 0 <= k < i && all.take(i as int)[k] == x;
                    assert(all.take(i + 1)[k] == x);
                }
                if x == s {
                    assert(all.take(i + 1)[i as int] == x);
                }
            }
        }
        i += 1;
    }
    proof {
        assert(all.take(all.len() as int) =~= all);
    }
}

/// Adds every tagged text of `from` to a rising list.
fn insert_all_tagged(list: &mut Vec<(Locale, String)>, from: &Vec<(Locale, String)>)
    requires
        rising_tagged(tagged_views(old(list)@)),
    ensures
        rising_tagged(tagged_views(final(list)@)),
        forall|x: (Locale, Seq<char>)| #[trigger]
            tagged_views(final(list)@).contains(x) <==> tagged_views(old(list)@).contains(x)
                || tagged_views(from@).contains(x),
{
    let ghost start = tagged_views(list@);
    let ghost all = tagged_views(from@);
    let mut i: usize = 0;
    while i < from.len()
        invariant
            i <= from@.len(),
            all == tagged_views(from@),
            rising_tagged(tagged_views(list@)),
            forall|x: (Locale, Seq<char>)| #[trigger]
                tagged_views(list@).contains(x) <==> start.contains(x) || all.take(
                    i as int,
                ).contains(x),
        decreases from@.len() - i,
    {
        let ghost before = tagged_views(list@);
        let ghost s = all[i as int];
        insert_tagged(list, from[i].0, from[i].1.as_str());
        proof {
            assert(s == (from@[i as int].0, from@[i as int].1@));
            assert forall|x: (Locale, Seq<char>)| #[trigger] tagged_views(list@).contains(x)
                <==> start.contains(x) || all.take(i + 1).contains(x) by {
                assert(tagged_views(list@).contains(x) <==> before.contains(x) || x == s);
                assert(all.take(i + 1) =~= all.take(i as int).push(s));
                if all.take(i as int).contains(x) {
                    let k = choose|k: int| 0 <= k < i && all.take(i as int)[k] == x;
                    assert(all.take(i + 1)[k] == x);
                }
                if x == s {
                    assert(all.take(i + 1)[i as int] == x);
                }
            }
        }
        i += 1;
    }
    proof {
        assert(all.take(all.len() as int) =~= all);
    }
}

/// Adds the variants of one more document, numbered on.
fn join_variants(variants: &mut Vec<VariantDoc>, doc: &LuminaireDoc, source: usize)
    ensures
        variant_views(final(variants)@) == variant_views(old(variants)@) + Seq::new(
            doc@.variants.len(),
            |k: int|
                renumbered(doc@.variants[k], old(variants)@.len() + k, source as int),
        ),
{
    let ghost start = variant_views(variants@);
    let ghost n = variants@.len() as int;
    let ghost more = Seq::new(
        doc@.variants.len(),
        |k: int| renumbered(doc@.variants[k], n + k, source as int),
    );
    let mut k: usize = 0;
    proof {
        assert(start + more.take(0) =~= start);
    }
    while k < doc.variants.len()
        invariant
            k <= doc.variants@.len(),
            variants@.len() == n + k,
            start.len() == n,
            more == Seq::new(
                doc@.variants.len(),
                |k: int| renumbered(doc@.variants[k], n + k, source as int),
            ),
            variant_views(variants@) == start + more.take(k as int),
        decreases doc.variants@.len() - k,
    {
        let number: usize = variants.len();
        let mut v: VariantDoc = doc.variants[k].copy();
        v.id = (number % 65536) as u16;
        v.source_index = (source % 65536) as u16;
        let ghost view = v@;
        let ghost before = variant_views(variants@);
        proof {
            assert(doc@.variants[k as int] == doc.variants@[k as int]@);
            assert(view == more[k as int]);
        }
        variants.push(v);
        proof {
            assert(variant_views(variants@) =~= before.push(view));
            assert(start + more.take(k + 1) =~= (start + more.take(k as int)).push(view));
        }
        k += 1;
    }
    proof {
        assert(more.take(more.len() as int) =~= more);
    }
}

/// One more document that has an item joins those that have it.
proof fn has_more(s: Seq<DocView>, d: DocView)
    ensures
        forall|x: u8| #[trigger]
            has_application(s.push(d), x) <==> has_application(s, x) || d.applications.contains(x),
        forall|x: u8| #[trigger]
            has_label(s.push(d), x) <==> has_label(s, x) || d.labels.contains(x),
        forall|x: u8| #[trigger]
            has_adjustability(s.push(d), x) <==> has_adjustability(s, x)
                || d.adjustability.contains(x),
        forall|x: Seq<char>| #[trigger]
            has_keyword(s.push(d), x) <==> has_keyword(s, x) || d.keywords.contains(x),
        forall|x: (Locale, Seq<char>)| #[trigger]
            has_description(s.push(d), x) <==> has_description(s, x) || d.descriptions.contains(x),
{
    let t = s.push(d);
    assert forall|i: int| 0 <= i < s.len() implies t[i] == s[i] by {}
    assert(t[s.len() as int] == d);
    assert forall|x: u8| #[trigger] has_application(t, x) <==> has_application(s, x)
        || d.applications.contains(x) by {
        if has_application(s, x) {
            let i = choose|i: int| 0 <= i < s.len() && (#[trigger] s[i]).applications.contains(x);
            assert(t[i].applications.contains(x));
        }
        if d.applications.contains(x) {
            assert(t[s.len() as int].applications.contains(x));
        }
        if has_application(t, x) {
            let i = choose|i: int| 0 <= i < t.len() && (#[trigger] t[i]).applications.contains(x);
            if i < s.len() {
                assert(s[i].applications.contains(x));
            }
        }
    }
    assert forall|x: u8| #[trigger] has_label(t, x) <==> has_label(s, x) || d.labels.contains(x) by {
        if has_label(s, x) {
            let i = choose|i: int| 0 <= i < s.len() && (#[trigger] s[i]).labels.contains(x);
            assert(t[i].labels.contains(x));
        }
        if d.labels.contains(x) {
            assert(t[s.len() as int].labels.contains(x));
        }
        if has_label(t, x) {
            let i = choose|i: int| 0 <= i < t.len() && (#[trigger] t[i]).labels.contains(x);
            if i < s.len() {
                assert(s[i].labels.contains(x));
            }
        }
    }
    assert forall|x: u8| #[trigger] has_adjustability(t, x) <==> has_adjustability(s, x)
        || d.adjustability.contains(x) by {
        if has_adjustability(s, x) {
            let i = choose|i: int| 0 <= i < s.len() && (#[trigger] s[i]).adjustability.contains(x);
            assert(t[i].adjustability.contains(x));
        }
        if d.adjustability.contains(x) {
            assert(t[s.len() as int].adjustability.contains(x));
        }
        if has_adjustability(t, x) {
            let i = choose|i: int| 0 <= i < t.len() && (#[trigger] t[i]).adjustability.contains(x);
            if i < s.len() {
                assert(s[i].adjustability.contains(x));
            }
        }
    }
    assert forall|x: Seq<char>| #[trigger] has_keyword(t, x) <==> has_keyword(s, x)
        || d.keywords.contains(x) by {
        if has_keyword(s, x) {
            let i = choose|i: int| 0 <= i < s.len() && (#[trigger] s[i]).keywords.contains(x);
            assert(t[i].keywords.contains(x));
        }
        if d.keywords.contains(x) {
            assert(t[s.len() as int].keywords.contains(x));
        }
        if has_keyword(t, x) {
            let i = choose|i: int| 0 <= i < t.len() && (#[trigger] t[i]).keywords.contains(x);
            if i < s.len() {
                assert(s[i].keywords.contains(x));
            }
        }
    }
    assert forall|x: (Locale, Seq<char>)| #[trigger] has_description(t, x) <==> has_description(
        s,
        x,
    ) || d.descriptions.contains(x) by {
        if has_description(s, x) {
            let i = choose|i: int| 0 <= i < s.len() && (#[trigger] s[i]).descriptions.contains(x);
            assert(t[i].descriptions.contains(x));
        }
        if d.descriptions.contains(x) {
            assert(t[s.len() as int].descriptions.contains(x));
        }
        if has_description(t, x) {
            let i = choose|i: int| 0 <= i < t.len() && (#[trigger] t[i]).descriptions.contains(x);
            if i < s.len() {
                assert(s[i].descriptions.contains(x));
            }
        }
    }
}

/// The document that the members of a family fold into, with their
/// identities led to it.
fn merge_group(
    docs: &Vec<LuminaireDoc>,
    manufacturer: &str,
    product: &str,
    at: &Vec<usize>,
    aliases: &mut Aliases,
) -> (r: LuminaireDoc)
    requires
        at@.len() > 0,
        within(at@, docs@.len() as int),
        old(aliases).well_formed(),
    ensures
        is_family_doc(
            r@,
            (manufacturer@, product@),
            docs_at(doc_views(docs@), at@),
        ),
        final(aliases).well_formed(),
        ({
            let group = docs_at(doc_views(docs@), at@);
            let to = folded_id((manufacturer@, product@), group);
            let ordered = if group.len() == 1 {
                group
            } else {
                by_identity(group)
            };
            final(aliases)@ == all_lead_to(old(aliases)@, ordered, to).insert(to, to)
        }),
{
    let ghost views = doc_views(docs@);
    let ghost group = docs_at(views, at@);
    let ghost family = (manufacturer@, product@);
    if at.len() == 1 {
        let doc: &LuminaireDoc = &docs[at[0]];
        let mut r: LuminaireDoc = doc.copy();
        proof {
            assert(group[0] == views[at@[0] as int]);
            assert(views[at@[0] as int] == doc@);
            assert(group.drop_last() =~= Seq::empty());
            assert(all_lead_to(aliases@, group.drop_last(), doc@.id) == aliases@);
            assert(aliases@.insert(doc@.id, doc@.id).insert(doc@.id, doc@.id) =~= aliases@.insert(
                doc@.id,
                doc@.id,
            ));
        }
        aliases.set(doc.id, doc.id);
        if r.source_paths.len() == 0 {
            let mut paths: Vec<SourceRef> = Vec::new();
            paths.push(doc.source.copy());
            r.source_paths = paths;
            proof {
                assert(source_views(r.source_paths@) =~= seq![doc@.source]);
            }
        }
        return r;
    }
    let canonical: DocId = family_doc_id(manufacturer, product);
    let order: Vec<usize> = order_by_identity(docs, at);
    let ghost s = docs_at(views, order@);
    proof {
        by_identity_orders(group);
    }
    let mut source_paths: Vec<SourceRef> = Vec::new();
    let mut variants: Vec<VariantDoc> = Vec::new();
    let mut applications: IdList = IdList::new();
    let mut labels: IdList = IdList::new();
    let mut adjustability: IdList = IdList::new();
    let mut keywords: Vec<String> = Vec::new();
    let mut descriptions: Vec<(Locale, String)> = Vec::new();
    let mut ip_code: Option<u8> = None;
    let mut safety_class: Option<u8> = None;
    let mut ik_rating: Option<u8> = None;
    let mut product_form: Option<u8> = None;
    let mut gtin: Option<String> = None;
    let mut product_code: Option<String> = None;
    let mut size_bytes: u64 = 0;
    let mut mtime: Option<u64> = None;
    let mut format_version: Option<String> = None;
    let ghost start = aliases@;
    let mut k: usize = 0;
    proof {
        let none = s.take(0);
        assert(none =~= Seq::empty());
        assert(source_views(source_paths@) =~= sources(none));
        assert(variant_views(variants@) =~= joined_variants(none));
        assert(texts(keywords@) =~= Seq::empty());
        assert(tagged_views(descriptions@) =~= Seq::empty());
    }
    while k < order.len()
        invariant
            k <= order@.len(),
            views == doc_views(docs@),
            s == docs_at(views, order@),
            within(order@, docs@.len() as int),
            canonical@ == family_digest(family),
            aliases.well_formed(),
            aliases@ == all_lead_to(start, s.take(k as int), canonical@),
            source_views(source_paths@) == sources(s.take(k as int)),
            source_paths@.len() == k,
            variant_views(variants@) == joined_variants(s.take(k as int)),
            rising(applications@),
            forall|x: u8| #[trigger]
                applications@.contains(x) <==> has_application(s.take(k as int), x),
            rising(labels@),
            forall|x: u8| #[trigger] labels@.contains(x) <==> has_label(s.take(k as int), x),
            rising(adjustability@),
            forall|x: u8| #[trigger]
                adjustability@.contains(x) <==> has_adjustability(s.take(k as int), x),
            rising_texts(texts(keywords@)),
            forall|x: Seq<char>| #[trigger]
                texts(keywords@).contains(x) <==> has_keyword(s.take(k as int), x),
            rising_tagged(tagged_views(descriptions@)),
            forall|x: (Locale, Seq<char>)| #[trigger]
                tagged_views(descriptions@).contains(x) <==> has_description(s.take(k as int), x),
            ip_code == first_of(s.take(k as int), ip_of()),
            safety_class == first_of(s.take(k as int), safety_of()),
            ik_rating == first_of(s.take(k as int), ik_of()),
            product_form == first_of(s.take(k as int), form_of()),
            opt_text(gtin) == first_of(s.take(k as int), gtin_of()),
            opt_text(product_code) == first_of(s.take(k as int), code_of()),
            size_bytes == least(total_size(s.take(k as int)) as int, u64::MAX as int),
            mtime == latest(s.take(k as int)),
            opt_text(format_version) == first_of(s.take(k as int), version_of()),
        decreases order@.len() - k,
    {
        let doc: &LuminaireDoc = &docs[order[k]];
        let ghost front = s.take(k as int);
        let ghost next = s.take(k + 1);
        proof {
            assert(s[k as int] == views[order@[k as int] as int]);
            assert(views[order@[k as int] as int] == doc@);
            assert(next.drop_last() =~= front);
            assert(next.last() == doc@);
            assert(next =~= front.push(doc@));
            has_more(front, doc@);
            assert(sources(next) =~= sources(front).push(doc@.source));
        }
        aliases.set(doc.id, canonical);
        let ghost before_sources = source_views(source_paths@);
        let src: SourceRef = doc.source.copy();
        source_paths.push(src);
        proof {
            assert(source_views(source_paths@) =~= before_sources.push(doc@.source));
        }
        insert_ids(&mut applications, &doc.applications);
        insert_ids(&mut labels, &doc.labels);
        insert_ids(&mut adjustability, &doc.adjustability);
        insert_texts(&mut keywords, &doc.keywords);
        insert_all_tagged(&mut descriptions, &doc.descriptions);
        ip_code = or_id(ip_code, doc.ip_code);
        safety_class = or_id(safety_class, doc.safety_class);
        ik_rating = or_id(ik_rating, doc.ik_rating);
        product_form = or_id(product_form, doc.product_form);
        gtin = or_text(gtin, &doc.gtin);
        product_code = or_text(product_code, &doc.product_code);
        let size: u64 = doc.file_meta.size_bytes;
        size_bytes = if size_bytes > u64::MAX - size {
            u64::MAX
        } else {
            size_bytes + size
        };
        mtime = later_of(mtime, doc.file_meta.mtime_epoch_s);
        format_version = or_text(format_version, &doc.file_meta.format_version);
        join_variants(&mut variants, doc, k);
        proof {
            assert(joined_variants(next) =~= joined_variants(front) + Seq::new(
                doc@.variants.len(),
                |j: int| renumbered(doc@.variants[j], joined_variants(front).len() + j, k as int),
            ));
        }
        k += 1;
    }
    proof {
        assert(s.take(s.len() as int) =~= s);
        assert(s.len() > 0);
        assert(source_views(source_paths@)[0] == source_paths@[0]@);
        assert(sources(s)[0] == s[0].source);
    }
    aliases.set(canonical, canonical);
    LuminaireDoc {
        id: canonical,
        source: source_paths[0].copy(),
        source_paths,
        manufacturer: crate::text::owned(manufacturer),
        product: crate::text::owned(product),
        gtin,
        product_code,
        descriptions,
        keywords,
        applications,
        labels,
        adjustability,
        ip_code,
        safety_class,
        ik_rating,
        product_form,
        variants,
        file_meta: FileMeta { size_bytes, mtime_epoch_s: mtime, format_version },
    }
}

/// More documents have no fewer variants.
proof fn variant_total_grows(docs: Seq<DocView>, n: int)
    requires
        0 <= n <= docs.len(),
    ensures
        variant_total(docs.take(n)) <= variant_total(docs),
    decreases docs.len() - n,
{
    if n == docs.len() {
        assert(docs.take(n) =~= docs);
    } else {
        variant_total_grows(docs, n + 1);
        assert(docs.take(n + 1).drop_last() =~= docs.take(n));
    }
}

/// How many variants several documents have together.
pub fn count_variants(docs: &Vec<LuminaireDoc>) -> (r: usize)
    requires
        variant_total(doc_views(docs@)) <= usize::MAX,
    ensures
        r == variant_total(doc_views(docs@)),
{
    let ghost views = doc_views(docs@);
    let mut n: usize = 0;
    let mut i: usize = 0;
    while i < docs.len()
        invariant
            i <= docs@.len(),
            views == doc_views(docs@),
            variant_total(views) <= usize::MAX,
            n == variant_total(views.take(i as int)),
        decreases docs@.len() - i,
    {
        proof {
            variant_total_grows(views, i + 1);
            assert(views.take(i + 1).drop_last() =~= views.take(i as int));
            assert(views.take(i + 1).last() == docs@[i as int]@);
            assert(docs@[i as int]@.variants.len() == docs@[i as int].variants@.len());
        }
        n = n + docs[i].variants.len();
        i += 1;
    }
    proof {
        assert(views.take(views.len() as int) =~= views);
    }
    n
}

/// Whether the slots lead from a manufacturer and a product to the
/// number of their family.
spec fn slots_lead(
    makers: Map<Seq<char>, usize>,
    products: Seq<StringHashMap<usize>>,
    fams: Seq<(Seq<char>, Seq<char>)>,
) -> bool {
    &&& forall|m: Seq<char>| #[trigger] makers.contains_key(m) ==> makers[m] < products.len()
    &&& forall|m: Seq<char>, n: Seq<char>|
        #[trigger] makers.contains_key(m) && #[trigger] makers.contains_key(n) && m != n
            ==> makers[m] != makers[n]
    &&& forall|m: Seq<char>, p: Seq<char>| #[trigger]
        fams.contains((m, p)) <==> makers.contains_key(m) && products[makers[m] as int]@.contains_key(
            p,
        )
    &&& forall|m: Seq<char>, p: Seq<char>| #[trigger]
        fams.contains((m, p)) ==> ({
            let g = products[makers[m] as int]@[p];
            g < fams.len() && fams[g as int] == (m, p)
        })
}

/// Whether the groups hold the positions of the families' members.
spec fn groups_hold(
    groups: Seq<Vec<usize>>,
    views: Seq<DocView>,
    n: int,
) -> bool {
    let fams = families(views.take(n));
    &&& groups.len() == fams.len()
    &&& forall|g: int|
        0 <= g < groups.len() ==> within(#[trigger] groups[g]@, n) && docs_at(views, groups[g]@)
            == members(views.take(n), fams[g])
}

/// The positions of the members of each family, in the order the
/// families first occur.
fn group_docs(docs: &Vec<LuminaireDoc>) -> (groups: Vec<Vec<usize>>)
    ensures
        groups_hold(groups@, doc_views(docs@), docs@.len() as int),
{
    let ghost views = doc_views(docs@);
    let mut makers: StringHashMap<usize> = StringHashMap::new();
    let mut products: Vec<StringHashMap<usize>> = Vec::new();
    let mut groups: Vec<Vec<usize>> = Vec::new();
    let mut i: usize = 0;
    proof {
        assert(families(views.take(0)) =~= Seq::empty());
    }
    while i < docs.len()
        invariant
            i <= docs@.len(),
            views == doc_views(docs@),
            slots_lead(makers@, products@, families(views.take(i as int))),
            groups_hold(groups@, views, i as int),
        decreases docs@.len() - i,
    {
        let d: &LuminaireDoc = &docs[i];
        let ghost front = views.take(i as int);
        let ghost next = views.take(i + 1);
        let ghost fams = families(front);
        let ghost key = (d.manufacturer@, d.product@);
        proof {
            assert(views[i as int] == d@);
            assert(next.drop_last() =~= front);
            assert(next.last() == d@);
        }
        let ghost makers0 = makers@;
        let ghost products0 = products@;
        let slot: usize = match makers.get(d.manufacturer.as_str()) {
            Some(s) => *s,
            None => {
                let s: usize = products.len();
                products.push(StringHashMap::new());
                makers.insert(d.manufacturer.clone(), s);
                s
            },
        };
        let ghost makers1 = makers@;
        let ghost products1 = products@;
        proof {
            assert(slots_lead(makers1, products1, fams)) by {
                assert forall|m: Seq<char>, p: Seq<char>| #[trigger] fams.contains((m, p))
                    <==> makers1.contains_key(m) && products1[makers1[m] as int]@.contains_key(p) by {
                    assert(fams.contains((m, p)) <==> makers0.contains_key(m)
                        && products0[makers0[m] as int]@.contains_key(p));
                }
                assert forall|m: Seq<char>, p: Seq<char>| #[trigger] fams.contains((m, p)) implies ({
                    let g = products1[makers1[m] as int]@[p];
                    g < fams.len() && fams[g as int] == (m, p)
                }) by {
                    assert(makers0.contains_key(m));
                }
            }
        }
        let found: Option<usize> = match products[slot].get(d.product.as_str()) {
            Some(g) => Some(*g),
            None => None,
        };
        let ghost groups0 = groups@;
        match found {
            Some(g) => {
                proof {
                    assert(fams.contains(key));
                    assert(families(next) == fams);
                }
                groups[g].push(i);
                proof {
                    assert(docs_at(views, groups@[g as int]@) =~= docs_at(
                        views,
                        groups0[g as int]@,
                    ).push(d@));
                    families_are_exact(front);
                    assert forall|h: int| 0 <= h < groups@.len() implies within(
                        #[trigger] groups@[h]@,
                        i + 1,
                    ) && docs_at(views, groups@[h]@) == members(next, fams[h]) by {
                        assert(within(groups0[h]@, i as int));
                        if h != g {
                            assert(groups@[h] == groups0[h]);
                            assert(fams[h] != key);
                        }
                    }
                }
            },
            None => {
                let g: usize = groups.len();
                proof {
                    assert(!fams.contains(key));
                    assert(families(next) == fams.push(key));
                }
                products[slot].insert(d.product.clone(), g);
                let mut one: Vec<usize> = Vec::new();
                one.push(i);
                groups.push(one);
                proof {
                    let more = families(next);
                    families_are_exact(front);
                    assert forall|j: int| 0 <= j < front.len() implies family_of(
                        #[trigger] front[j],
                    ) != key by {
                        assert(fams.contains(family_of(front[j])));
                    }
                    members_absent(front, key);
                    assert(members(front, key) =~= Seq::empty());
                    assert(docs_at(views, groups@[g as int]@) =~= members(next, key));
                    assert forall|h: int| 0 <= h < groups@.len() implies within(
                        #[trigger] groups@[h]@,
                        i + 1,
                    ) && docs_at(views, groups@[h]@) == members(next, more[h]) by {
                        if h < g {
                            assert(groups@[h] == groups0[h]);
                            assert(within(groups0[h]@, i as int));
                            assert(more[h] == fams[h]);
                            assert(fams.contains(fams[h]));
                        }
                    }
                    assert(slots_lead(makers@, products@, more)) by {
                        assert forall|m: Seq<char>, p: Seq<char>| #[trigger] more.contains((m, p))
                            <==> makers@.contains_key(m) && products@[makers@[m] as int]@.contains_key(
                            p,
                        ) by {
                            assert(fams.contains((m, p)) <==> makers1.contains_key(m)
                                && products1[makers1[m] as int]@.contains_key(p));
                            if fams.contains((m, p)) {
                                let k = choose|k: int| 0 <= k < fams.len() && fams[k] == (m, p);
                                assert(more[k] == (m, p));
                            }
                            if (m, p) == key {
                                assert(more[g as int] == key);
                            }
                            if more.contains((m, p)) && (m, p) != key {
                                let k = choose|k: int| 0 <= k < more.len() && more[k] == (m, p);
                                assert(fams[k] == (m, p));
                            }
                            if makers@.contains_key(m) && m != key.0 {
                                assert(makers@[m] != slot);
                            }
                        }
                        assert forall|m: Seq<char>, p: Seq<char>| #[trigger] more.contains(
                            (m, p),
                        ) implies ({
                            let h = products@[makers@[m] as int]@[p];
                            h < more.len() && more[h as int] == (m, p)
                        }) by {
                            if (m, p) != key {
                                let k = choose|k: int| 0 <= k < more.len() && more[k] == (m, p);
                                assert(fams[k] == (m, p));
                                assert(fams.contains((m, p)));
                                if m != key.0 {
                                    assert(makers1.contains_key(m) && makers1.contains_key(key.0));
                                    assert(makers@[m] != slot);
                                }
                                let h = products1[makers1[m] as int]@[p];
                                assert(fams[h as int] == (m, p));
                                assert(more[h as int] == fams[h as int]);
                            }
                        }
                    }
                }
            },
        }
        i += 1;
    }
    proof {
        assert(views.take(views.len() as int) =~= views);
    }
    groups
}

/// Every member of a family is of that family.
proof fn members_belong(docs: Seq<DocView>, family: (Seq<char>, Seq<char>), j: int)
    requires
        0 <= j < members(docs, family).len(),
    ensures
        family_of(members(docs, family)[j]) == family,
    decreases docs.len(),
{
    if family_of(docs.last()) == family && j == members(docs, family).len() - 1 {
    } else {
        members_belong(docs.drop_last(), family, j);
    }
}

/// Folds the documents of each family into one document. Gives the
/// folded documents, where each identity leads, and what was done.
pub fn fold_docs(docs: Vec<LuminaireDoc>) -> (r: (Vec<LuminaireDoc>, Aliases, FoldStats))
    requires
        variant_total(doc_views(docs@)) <= usize::MAX,
    ensures
        is_folding(doc_views(r.0@), doc_views(docs@)),
        r.1.well_formed(),
        r.1@ == aliases_of(doc_views(docs@), families(doc_views(docs@)).len() as int),
        r.2.input_docs == docs@.len(),
        r.2.output_docs == r.0@.len(),
        r.2.input_variants == variant_total(doc_views(docs@)),
        r.2.output_variants == r.2.input_variants,
        r.2.aliases == r.1@.dom().len(),
{
    let ghost views = doc_views(docs@);
    let ghost fams = families(views);
    let groups: Vec<Vec<usize>> = group_docs(&docs);
    proof {
        assert(views.take(views.len() as int) =~= views);
        families_are_exact(views);
    }
    let mut folded: Vec<LuminaireDoc> = Vec::new();
    let mut aliases: Aliases = Aliases::new();
    let mut g: usize = 0;
    while g < groups.len()
        invariant
            g <= groups@.len(),
            views == doc_views(docs@),
            fams == families(views),
            groups@.len() == fams.len(),
            forall|h: int|
                0 <= h < groups@.len() ==> within(#[trigger] groups@[h]@, docs@.len() as int)
                    && docs_at(views, groups@[h]@) == members(views, fams[h]),
            forall|k: int| 0 <= k < fams.len() ==> members(views, #[trigger] fams[k]).len() > 0,
            folded@.len() == g,
            forall|h: int|
                0 <= h < g ==> is_family_doc(
                    (#[trigger] folded@[h])@,
                    fams[h],
                    members(views, fams[h]),
                ),
            aliases.well_formed(),
            aliases@ == aliases_of(views, g as int),
        decreases groups@.len() - g,
    {
        let at: &Vec<usize> = &groups[g];
        proof {
            assert(docs_at(views, at@) == members(views, fams[g as int]));
            assert(members(views, fams[g as int]).len() > 0);
            assert(docs_at(views, at@)[0] == views[at@[0] as int]);
            assert(views[at@[0] as int] == docs@[at@[0] as int]@);
            members_belong(views, fams[g as int], 0);
        }
        let first: &LuminaireDoc = &docs[at[0]];
        let merged: LuminaireDoc = merge_group(
            &docs,
            first.manufacturer.as_str(),
            first.product.as_str(),
            at,
            &mut aliases,
        );
        folded.push(merged);
        g += 1;
    }
    proof {
        let out = doc_views(folded@);
        assert forall|h: int| 0 <= h < out.len() implies is_family_doc(
            #[trigger] out[h],
            fams[h],
            members(views, fams[h]),
        ) by {
            assert(out[h] == folded@[h]@);
        }
        folding_keeps_variants(out, views);
    }
    let stats: FoldStats = FoldStats {
        input_docs: docs.len(),
        output_docs: folded.len(),
        input_variants: count_variants(&docs),
        output_variants: count_variants(&folded),
        aliases: aliases.len(),
    };
    (folded, aliases, stats)
}

/// Whether no two documents are of the same family.
pub open spec fn families_differ(docs: Seq<DocView>) -> bool {
    forall|i: int, j: int|
        0 <= i < j < docs.len() ==> family_of(#[trigger] docs[i]) != family_of(#[trigger] docs[j])
}

/// What a family folds into is of that family.
proof fn family_doc_belongs(d: DocView, family: (Seq<char>, Seq<char>), docs: Seq<DocView>)
    requires
        members(docs, family).len() > 0,
        is_family_doc(d, family, members(docs, family)),
    ensures
        family_of(d) == family,
        members(docs, family).len() > 1 ==> d.source_paths.len() > 0,
        members(docs, family).len() == 1 ==> d.source_paths.len() > 0,
{
    members_belong(docs, family, 0);
    by_identity_orders(members(docs, family));
}

/// Documents of different families are the only members of theirs.
proof fn lone_members(docs: Seq<DocView>)
    requires
        families_differ(docs),
    ensures
        families(docs) == docs.map_values(|d: DocView| family_of(d)),
        forall|i: int|
            0 <= i < docs.len() ==> members(docs, family_of(#[trigger] docs[i])) == seq![docs[i]],
    decreases docs.len(),
{
    if docs.len() > 0 {
        let front = docs.drop_last();
        let last = docs.last();
        assert forall|i: int, j: int| 0 <= i < j < front.len() implies family_of(
            #[trigger] front[i],
        ) != family_of(#[trigger] front[j]) by {
            assert(front[i] == docs[i] && front[j] == docs[j]);
        }
        lone_members(front);
        let f = families(front);
        if f.contains(family_of(last)) {
            let k = choose|k: int| 0 <= k < f.len() && f[k] == family_of(last);
            assert(family_of(docs[k]) != family_of(docs[docs.len() - 1]));
            assert(f[k] == family_of(front[k]));
        }
        assert(families(docs) =~= docs.map_values(|d: DocView| family_of(d)));
        assert forall|i: int| 0 <= i < docs.len() implies members(
            docs,
            family_of(#[trigger] docs[i]),
        ) == seq![docs[i]] by {
            if i < front.len() {
                assert(front[i] == docs[i]);
                assert(family_of(docs[i]) != family_of(docs[docs.len() - 1]));
            } else {
                assert forall|j: int| 0 <= j < front.len() implies family_of(#[trigger] front[j])
                    != family_of(last) by {
                    assert(family_of(docs[j]) != family_of(docs[docs.len() - 1]));
                }
                members_absent(front, family_of(last));
                assert(members(docs, family_of(last)) =~= seq![last]);
            }
        }
    } else {
        assert(families(docs) =~= docs.map_values(|d: DocView| family_of(d)));
    }
}

/// No two folded documents are of the same family.
pub proof fn folding_separates_families(out: Seq<DocView>, docs: Seq<DocView>)
    requires
        is_folding(out, docs),
    ensures
        families_differ(out),
{
    families_are_exact(docs);
    let fams = families(docs);
    assert forall|i: int, j: int| 0 <= i < j < out.len() implies family_of(#[trigger] out[i])
        != family_of(#[trigger] out[j]) by {
        family_doc_belongs(out[i], fams[i], docs);
        family_doc_belongs(out[j], fams[j], docs);
    }
}

/// Folding what is already folded changes nothing.
pub proof fn folding_again_changes_nothing(
    again: Seq<DocView>,
    out: Seq<DocView>,
    docs: Seq<DocView>,
)
    requires
        is_folding(out, docs),
        is_folding(again, out),
    ensures
        again == out,
{
    folding_separates_families(out, docs);
    families_are_exact(docs);
    lone_members(out);
    assert forall|i: int| 0 <= i < out.len() implies again[i] == out[i] by {
        let fams = families(docs);
        family_doc_belongs(out[i], fams[i], docs);
        assert(families(out)[i] == family_of(out[i]));
        assert(members(out, family_of(out[i])) == seq![out[i]]);
        assert(is_family_doc(again[i], families(out)[i], members(out, families(out)[i])));
    }
    assert(again =~= out);
}

/// Whether two documents are of one product of one manufacturer, to the
/// letter.
pub open spec fn same_product(a: DocView, b: DocView) -> bool {
    a.manufacturer == b.manufacturer && a.product == b.product
}

/// The documents that the `g`th folded document is made of, in the order
/// of their identities.
spec fn folded_from(docs: Seq<DocView>, g: int) -> Seq<DocView> {
    let group = members(docs, families(docs)[g]);
    if group.len() == 1 {
        group
    } else {
        by_identity(group)
    }
}

/// A folded document is made of the documents of its product, and of
/// those alone.
proof fn folded_from_its_product(out: Seq<DocView>, docs: Seq<DocView>, g: int)
    requires
        is_folding(out, docs),
        0 <= g < out.len(),
    ensures
        folded_from(docs, g).len() > 0,
        in_identity_order(folded_from(docs, g)),
        forall|k: int|
            0 <= k < folded_from(docs, g).len() ==> docs.contains(
                #[trigger] folded_from(docs, g)[k],
            ) && same_product(folded_from(docs, g)[k], out[g]),
        forall|j: int|
            0 <= j < docs.len() && same_product(#[trigger] docs[j], out[g]) ==> folded_from(
                docs,
                g,
            ).contains(docs[j]),
{
    let fam = families(docs)[g];
    let group = members(docs, fam);
    let s = folded_from(docs, g);
    families_are_exact(docs);
    family_doc_belongs(out[g], fam, docs);
    by_identity_orders(group);
    assert forall|k: int| 0 <= k < s.len() implies docs.contains(#[trigger] s[k]) && same_product(
        s[k],
        out[g],
    ) by {
        let at = if group.len() == 1 {
            k
        } else {
            ordered_origin(group, k)
        };
        let j = member_origin(docs, fam, at);
        assert(docs[j] == s[k]);
    }
    assert forall|j: int| 0 <= j < docs.len() && same_product(#[trigger] docs[j], out[g]) implies s.contains(
        docs[j],
    ) by {
        let at = member_position(docs, j);
        assert(family_of(docs[j]) == fam);
        assert(group[at] == docs[j]);
        if group.len() != 1 {
            broadcast use vstd::seq_lib::group_to_multiset_ensures;

            assert(group.contains(docs[j]));
            assert(group.to_multiset().count(docs[j]) > 0);
            assert(by_identity(group).to_multiset().count(docs[j]) > 0);
        }
    }
}

proof fn first_of_is_first<T>(s: Seq<DocView>, pick: spec_fn(DocView) -> Option<T>)
    ensures
        first_of(s, pick) is Some ==> exists|k: int|
            0 <= k < s.len() && pick(#[trigger] s[k]) == first_of(s, pick),
        forall|k: int| 0 <= k < s.len() && pick(#[trigger] s[k]) is Some ==> first_of(s, pick) is Some,
        s.len() > 0 && pick(s[0]) is Some ==> first_of(s, pick) == pick(s[0]),
    decreases s.len(),
{
    if s.len() > 0 {
        let front = s.drop_last();
        first_of_is_first(front, pick);
        if first_of(front, pick) is Some {
            let k = choose|k: int|
                0 <= k < front.len() && pick(#[trigger] front[k]) == first_of(front, pick);
            assert(s[k] == front[k]);
        } else {
            assert(pick(s[s.len() - 1]) == first_of(s, pick));
        }
        assert forall|k: int| 0 <= k < s.len() && pick(#[trigger] s[k]) is Some implies first_of(
            s,
            pick,
        ) is Some by {
            if k < front.len() {
                assert(front[k] == s[k]);
            }
        }
        if front.len() > 0 {
            assert(front[0] == s[0]);
        }
    }
}

/// The IP code of a folded document is that of one of the
/// documents of its product, there is one where any of them has one, and
/// what they all agree on is kept.
pub proof fn folded_ip_code_is_of_a_member(out: Seq<DocView>, docs: Seq<DocView>, g: int)
    requires
        is_folding(out, docs),
        0 <= g < out.len(),
    ensures
        out[g].ip_code is Some ==> exists|j: int|
            0 <= j < docs.len() && same_product(#[trigger] docs[j], out[g]) && docs[j].ip_code
                == out[g].ip_code,
        forall|j: int|
            0 <= j < docs.len() && same_product(#[trigger] docs[j], out[g]) && docs[j].ip_code is Some
                ==> out[g].ip_code is Some,
        forall|j: int|
            0 <= j < docs.len() && same_product(#[trigger] docs[j], out[g]) && docs[j].ip_code is Some
                && (forall|i: int|
                0 <= i < docs.len() && same_product(#[trigger] docs[i], out[g]) && docs[i].ip_code is Some
                    ==> docs[i].ip_code == docs[j].ip_code) ==> out[g].ip_code == docs[j].ip_code,
{
    let s = folded_from(docs, g);
    let pick = ip_of();
    folded_from_its_product(out, docs, g);
    first_of_is_first(s, pick);
    if s.len() == 1 {
        by_identity_orders(members(docs, families(docs)[g]));
        assert(out[g].ip_code == s[0].ip_code);
        assert(s.drop_last() =~= Seq::empty());
        assert(first_of(s.drop_last(), pick) is None);
        assert(first_of(s, pick) == pick(s[0]));
    }
    assert(out[g].ip_code == first_of(s, pick));
    assert forall|j: int|
        0 <= j < docs.len() && same_product(#[trigger] docs[j], out[g]) && docs[j].ip_code is Some implies out[g].ip_code is Some by {
        let k = choose|k: int| 0 <= k < s.len() && s[k] == docs[j];
        assert(pick(s[k]) is Some);
    }
    if out[g].ip_code is Some {
        let k = choose|k: int| 0 <= k < s.len() && pick(#[trigger] s[k]) == first_of(s, pick);
        assert(docs.contains(s[k]));
        let j = choose|j: int| 0 <= j < docs.len() && docs[j] == s[k];
        assert(same_product(docs[j], out[g]) && docs[j].ip_code == out[g].ip_code);
    }
}

/// The safety class of a folded document is that of one of the
/// documents of its product, there is one where any of them has one, and
/// what they all agree on is kept.
pub proof fn folded_safety_class_is_of_a_member(out: Seq<DocView>, docs: Seq<DocView>, g: int)
    requires
        is_folding(out, docs),
        0 <= g < out.len(),
    ensures
        out[g].safety_class is Some ==> exists|j: int|
            0 <= j < docs.len() && same_product(#[trigger] docs[j], out[g]) && docs[j].safety_class
                == out[g].safety_class,
        forall|j: int|
            0 <= j < docs.len() && same_product(#[trigger] docs[j], out[g]) && docs[j].safety_class is Some
                ==> out[g].safety_class is Some,
        forall|j: int|
            0 <= j < docs.len() && same_product(#[trigger] docs[j], out[g]) && docs[j].safety_class is Some
                && (forall|i: int|
                0 <= i < docs.len() && same_product(#[trigger] docs[i], out[g]) && docs[i].safety_class is Some
                    ==> docs[i].safety_class == docs[j].safety_class) ==> out[g].safety_class == docs[j].safety_class,
{
    let s = folded_from(docs, g);
    let pick = safety_of();
    folded_from_its_product(out, docs, g);
    first_of_is_first(s, pick);
    if s.len() == 1 {
        by_identity_orders(members(docs, families(docs)[g]));
        assert(out[g].safety_class == s[0].safety_class);
        assert(s.drop_last() =~= Seq::empty());
        assert(first_of(s.drop_last(), pick) is None);
        assert(first_of(s, pick) == pick(s[0]));
    }
    assert(out[g].safety_class == first_of(s, pick));
    assert forall|j: int|
        0 <= j < docs.len() && same_product(#[trigger] docs[j], out[g]) && docs[j].safety_class is Some implies out[g].safety_class is Some by {
        let k = choose|k: int| 0 <= k < s.len() && s[k] == docs[j];
        assert(pick(s[k]) is Some);
    }
    if out[g].safety_class is Some {
        let k = choose|k: int| 0 <= k < s.len() && pick(#[trigger] s[k]) == first_of(s, pick);
        assert(docs.contains(s[k]));
        let j = choose|j: int| 0 <= j < docs.len() && docs[j] == s[k];
        assert(same_product(docs[j], out[g]) && docs[j].safety_class == out[g].safety_class);
    }
}

/// The IK rating of a folded document is that of one of the
/// documents of its product, there is one where any of them has one, and
/// what they all agree on is kept.
pub proof fn folded_ik_rating_is_of_a_member(out: Seq<DocView>, docs: Seq<DocView>, g: int)
    requires
        is_folding(out, docs),
        0 <= g < out.len(),
    ensures
        out[g].ik_rating is Some ==> exists|j: int|
            0 <= j < docs.len() && same_product(#[trigger] docs[j], out[g]) && docs[j].ik_rating
                == out[g].ik_rating,
        forall|j: int|
            0 <= j < docs.len() && same_product(#[trigger] docs[j], out[g]) && docs[j].ik_rating is Some
                ==> out[g].ik_rating is Some,
        forall|j: int|
            0 <= j < docs.len() && same_product(#[trigger] docs[j], out[g]) && docs[j].ik_rating is Some
                && (forall|i: int|
                0 <= i < docs.len() && same_product(#[trigger] docs[i], out[g]) && docs[i].ik_rating is Some
                    ==> docs[i].ik_rating == docs[j].ik_rating) ==> out[g].ik_rating == docs[j].ik_rating,
{
    let s = folded_from(docs, g);
    let pick = ik_of();
    folded_from_its_product(out, docs, g);
    first_of_is_first(s, pick);
    if s.len() == 1 {
        by_identity_orders(members(docs, families(docs)[g]));
        assert(out[g].ik_rating == s[0].ik_rating);
        assert(s.drop_last() =~= Seq::empty());
        assert(first_of(s.drop_last(), pick) is None);
        assert(first_of(s, pick) == pick(s[0]));
    }
    assert(out[g].ik_rating == first_of(s, pick));
    assert forall|j: int|
        0 <= j < docs.len() && same_product(#[trigger] docs[j], out[g]) && docs[j].ik_rating is Some implies out[g].ik_rating is Some by {
        let k = choose|k: int| 0 <= k < s.len() && s[k] == docs[j];
        assert(pick(s[k]) is Some);
    }
    if out[g].ik_rating is Some {
        let k = choose|k: int| 0 <= k < s.len() && pick(#[trigger] s[k]) == first_of(s, pick);
        assert(docs.contains(s[k]));
        let j = choose|j: int| 0 <= j < docs.len() && docs[j] == s[k];
        assert(same_product(docs[j], out[g]) && docs[j].ik_rating == out[g].ik_rating);
    }
}

/// The product form of a folded document is that of one of the
/// documents of its product, there is one where any of them has one, and
/// what they all agree on is kept.
pub proof fn folded_form_is_of_a_member(out: Seq<DocView>, docs: Seq<DocView>, g: int)
    requires
        is_folding(out, docs),
        0 <= g < out.len(),
    ensures
        out[g].product_form is Some ==> exists|j: int|
            0 <= j < docs.len() && same_product(#[trigger] docs[j], out[g]) && docs[j].product_form
                == out[g].product_form,
        forall|j: int|
            0 <= j < docs.len() && same_product(#[trigger] docs[j], out[g]) && docs[j].product_form is Some
                ==> out[g].product_form is Some,
        forall|j: int|
            0 <= j < docs.len() && same_product(#[trigger] docs[j], out[g]) && docs[j].product_form is Some
                && (forall|i: int|
                0 <= i < docs.len() && same_product(#[trigger] docs[i], out[g]) && docs[i].product_form is Some
                    ==> docs[i].product_form == docs[j].product_form) ==> out[g].product_form == docs[j].product_form,
{
    let s = folded_from(docs, g);
    let pick = form_of();
    folded_from_its_product(out, docs, g);
    first_of_is_first(s, pick);
    if s.len() == 1 {
        by_identity_orders(members(docs, families(docs)[g]));
        assert(out[g].product_form == s[0].product_form);
        assert(s.drop_last() =~= Seq::empty());
        assert(first_of(s.drop_last(), pick) is None);
        assert(first_of(s, pick) == pick(s[0]));
    }
    assert(out[g].product_form == first_of(s, pick));
    assert forall|j: int|
        0 <= j < docs.len() && same_product(#[trigger] docs[j], out[g]) && docs[j].product_form is Some implies out[g].product_form is Some by {
        let k = choose|k: int| 0 <= k < s.len() && s[k] == docs[j];
        assert(pick(s[k]) is Some);
    }
    if out[g].product_form is Some {
        let k = choose|k: int| 0 <= k < s.len() && pick(#[trigger] s[k]) == first_of(s, pick);
        assert(docs.contains(s[k]));
        let j = choose|j: int| 0 <= j < docs.len() && docs[j] == s[k];
        assert(same_product(docs[j], out[g]) && docs[j].product_form == out[g].product_form);
    }
}

/// The trade number of a folded document is that of one of the
/// documents of its product, there is one where any of them has one, and
/// what they all agree on is kept.
pub proof fn folded_gtin_is_of_a_member(out: Seq<DocView>, docs: Seq<DocView>, g: int)
    requires
        is_folding(out, docs),
        0 <= g < out.len(),
    ensures
        out[g].gtin is Some ==> exists|j: int|
            0 <= j < docs.len() && same_product(#[trigger] docs[j], out[g]) && docs[j].gtin
                == out[g].gtin,
        forall|j: int|
            0 <= j < docs.len() && same_product(#[trigger] docs[j], out[g]) && docs[j].gtin is Some
                ==> out[g].gtin is Some,
        forall|j: int|
            0 <= j < docs.len() && same_product(#[trigger] docs[j], out[g]) && docs[j].gtin is Some
                && (forall|i: int|
                0 <= i < docs.len() && same_product(#[trigger] docs[i], out[g]) && docs[i].gtin is Some
                    ==> docs[i].gtin == docs[j].gtin) ==> out[g].gtin == docs[j].gtin,
{
    let s = folded_from(docs, g);
    let pick = gtin_of();
    folded_from_its_product(out, docs, g);
    first_of_is_first(s, pick);
    if s.len() == 1 {
        by_identity_orders(members(docs, families(docs)[g]));
        assert(out[g].gtin == s[0].gtin);
        assert(s.drop_last() =~= Seq::empty());
        assert(first_of(s.drop_last(), pick) is None);
        assert(first_of(s, pick) == pick(s[0]));
    }
    assert(out[g].gtin == first_of(s, pick));
    assert forall|j: int|
        0 <= j < docs.len() && same_product(#[trigger] docs[j], out[g]) && docs[j].gtin is Some implies out[g].gtin is Some by {
        let k = choose|k: int| 0 <= k < s.len() && s[k] == docs[j];
        assert(pick(s[k]) is Some);
    }
    if out[g].gtin is Some {
        let k = choose|k: int| 0 <= k < s.len() && pick(#[trigger] s[k]) == first_of(s, pick);
        assert(docs.contains(s[k]));
        let j = choose|j: int| 0 <= j < docs.len() && docs[j] == s[k];
        assert(same_product(docs[j], out[g]) && docs[j].gtin == out[g].gtin);
    }
}

/// The product code of a folded document is that of one of the
/// documents of its product, there is one where any of them has one, and
/// what they all agree on is kept.
pub proof fn folded_product_code_is_of_a_member(out: Seq<DocView>, docs: Seq<DocView>, g: int)
    requires
        is_folding(out, docs),
        0 <= g < out.len(),
    ensures
        out[g].product_code is Some ==> exists|j: int|
            0 <= j < docs.len() && same_product(#[trigger] docs[j], out[g]) && docs[j].product_code
                == out[g].product_code,
        forall|j: int|
            0 <= j < docs.len() && same_product(#[trigger] docs[j], out[g]) && docs[j].product_code is Some
                ==> out[g].product_code is Some,
        forall|j: int|
            0 <= j < docs.len() && same_product(#[trigger] docs[j], out[g]) && docs[j].product_code is Some
                && (forall|i: int|
                0 <= i < docs.len() && same_product(#[trigger] docs[i], out[g]) && docs[i].product_code is Some
                    ==> docs[i].product_code == docs[j].product_code) ==> out[g].product_code == docs[j].product_code,
{
    let s = folded_from(docs, g);
    let pick = code_of();
    folded_from_its_product(out, docs, g);
    first_of_is_first(s, pick);
    if s.len() == 1 {
        by_identity_orders(members(docs, families(docs)[g]));
        assert(out[g].product_code == s[0].product_code);
        assert(s.drop_last() =~= Seq::empty());
        assert(first_of(s.drop_last(), pick) is None);
        assert(first_of(s, pick) == pick(s[0]));
    }
    assert(out[g].product_code == first_of(s, pick));
    assert forall|j: int|
        0 <= j < docs.len() && same_product(#[trigger] docs[j], out[g]) && docs[j].product_code is Some implies out[g].product_code is Some by {
        let k = choose|k: int| 0 <= k < s.len() && s[k] == docs[j];
        assert(pick(s[k]) is Some);
    }
    if out[g].product_code is Some {
        let k = choose|k: int| 0 <= k < s.len() && pick(#[trigger] s[k]) == first_of(s, pick);
        assert(docs.contains(s[k]));
        let j = choose|j: int| 0 <= j < docs.len() && docs[j] == s[k];
        assert(same_product(docs[j], out[g]) && docs[j].product_code == out[g].product_code);
    }
}

/// The format version of a folded document is that of one of the
/// documents of its product, there is one where any of them has one, and
/// what they all agree on is kept.
pub proof fn folded_version_is_of_a_member(out: Seq<DocView>, docs: Seq<DocView>, g: int)
    requires
        is_folding(out, docs),
        0 <= g < out.len(),
    ensures
        out[g].file_meta.format_version is Some ==> exists|j: int|
            0 <= j < docs.len() && same_product(#[trigger] docs[j], out[g]) && docs[j].file_meta.format_version
                == out[g].file_meta.format_version,
        forall|j: int|
            0 <= j < docs.len() && same_product(#[trigger] docs[j], out[g]) && docs[j].file_meta.format_version is Some
                ==> out[g].file_meta.format_version is Some,
        forall|j: int|
            0 <= j < docs.len() && same_product(#[trigger] docs[j], out[g]) && docs[j].file_meta.format_version is Some
                && (forall|i: int|
                0 <= i < docs.len() && same_product(#[trigger] docs[i], out[g]) && docs[i].file_meta.format_version is Some
                    ==> docs[i].file_meta.format_version == docs[j].file_meta.format_version) ==> out[g].file_meta.format_version == docs[j].file_meta.format_version,
{
    let s = folded_from(docs, g);
    let pick = version_of();
    folded_from_its_product(out, docs, g);
    first_of_is_first(s, pick);
    if s.len() == 1 {
        by_identity_orders(members(docs, families(docs)[g]));
        assert(out[g].file_meta.format_version == s[0].file_meta.format_version);
        assert(s.drop_last() =~= Seq::empty());
        assert(first_of(s.drop_last(), pick) is None);
        assert(first_of(s, pick) == pick(s[0]));
    }
    assert(out[g].file_meta.format_version == first_of(s, pick));
    assert forall|j: int|
        0 <= j < docs.len() && same_product(#[trigger] docs[j], out[g]) && docs[j].file_meta.format_version is Some implies out[g].file_meta.format_version is Some by {
        let k = choose|k: int| 0 <= k < s.len() && s[k] == docs[j];
        assert(pick(s[k]) is Some);
    }
    if out[g].file_meta.format_version is Some {
        let k = choose|k: int| 0 <= k < s.len() && pick(#[trigger] s[k]) == first_of(s, pick);
        assert(docs.contains(s[k]));
        let j = choose|j: int| 0 <= j < docs.len() && docs[j] == s[k];
        assert(same_product(docs[j], out[g]) && docs[j].file_meta.format_version == out[g].file_meta.format_version);
    }
}

/// Of several documents of a product, the one with the least identity has
/// the first word.
pub proof fn least_identity_has_the_first_word(
    out: Seq<DocView>,
    docs: Seq<DocView>,
    g: int,
    j: int,
)
    requires
        is_folding(out, docs),
        0 <= g < out.len(),
        0 <= j < docs.len(),
        same_product(docs[j], out[g]),
        forall|i: int|
            0 <= i < docs.len() && same_product(#[trigger] docs[i], out[g]) && docs[i] != docs[j]
                ==> bytes_lt(docs[j].id, docs[i].id),
    ensures
        docs[j].ip_code is Some ==> out[g].ip_code == docs[j].ip_code,
        docs[j].safety_class is Some ==> out[g].safety_class == docs[j].safety_class,
        docs[j].ik_rating is Some ==> out[g].ik_rating == docs[j].ik_rating,
        docs[j].product_form is Some ==> out[g].product_form == docs[j].product_form,
        docs[j].gtin is Some ==> out[g].gtin == docs[j].gtin,
        docs[j].product_code is Some ==> out[g].product_code == docs[j].product_code,
        out[g].source == docs[j].source,
{
    let s = folded_from(docs, g);
    folded_from_its_product(out, docs, g);
    let k = choose|k: int| 0 <= k < s.len() && s[k] == docs[j];
    if s[0] != docs[j] {
        assert(docs.contains(s[0]));
        let i = choose|i: int| 0 <= i < docs.len() && docs[i] == s[0];
        assert(same_product(docs[i], out[g]));
        assert(bytes_lt(s[k].id, s[0].id));
    }
    first_of_is_first(s, ip_of());
    first_of_is_first(s, safety_of());
    first_of_is_first(s, ik_of());
    first_of_is_first(s, form_of());
    first_of_is_first(s, gtin_of());
    first_of_is_first(s, code_of());
    by_identity_orders(members(docs, families(docs)[g]));
}

/// A folded document has a keyword, a description, an application, a
/// label or an adjustability exactly if one of the documents of its
/// product has it.
#[verifier::spinoff_prover]
pub proof fn folded_lists_are_those_of_the_members(
    out: Seq<DocView>,
    docs: Seq<DocView>,
    g: int,
    id: u8,
    word: Seq<char>,
    tagged: (Locale, Seq<char>),
)
    requires
        is_folding(out, docs),
        0 <= g < out.len(),
    ensures
        out[g].applications.contains(id) <==> exists|j: int|
            0 <= j < docs.len() && same_product(#[trigger] docs[j], out[g])
                && docs[j].applications.contains(id),
        out[g].labels.contains(id) <==> exists|j: int|
            0 <= j < docs.len() && same_product(#[trigger] docs[j], out[g])
                && docs[j].labels.contains(id),
        out[g].adjustability.contains(id) <==> exists|j: int|
            0 <= j < docs.len() && same_product(#[trigger] docs[j], out[g])
                && docs[j].adjustability.contains(id),
        out[g].keywords.contains(word) <==> exists|j: int|
            0 <= j < docs.len() && same_product(#[trigger] docs[j], out[g])
                && docs[j].keywords.contains(word),
        out[g].descriptions.contains(tagged) <==> exists|j: int|
            0 <= j < docs.len() && same_product(#[trigger] docs[j], out[g])
                && docs[j].descriptions.contains(tagged),
{
    let s = folded_from(docs, g);
    folded_from_its_product(out, docs, g);
    by_identity_orders(members(docs, families(docs)[g]));
    assert(out[g].applications.contains(id) <==> has_application(s, id)) by {
        if s.len() == 1 {
            assert(out[g].applications == s[0].applications);
            assert(s[0].applications.contains(id) ==> has_application(s, id));
        }
    }
    if has_application(s, id) {
        let k = choose|k: int| 0 <= k < s.len() && (#[trigger] s[k]).applications.contains(id);
        assert(docs.contains(s[k]));
        let j = choose|j: int| 0 <= j < docs.len() && docs[j] == s[k];
        assert(same_product(docs[j], out[g]) && docs[j].applications.contains(id));
    }
    if exists|j: int|
        0 <= j < docs.len() && same_product(#[trigger] docs[j], out[g]) && docs[j].applications.contains(id) {
        let j = choose|j: int|
            0 <= j < docs.len() && same_product(#[trigger] docs[j], out[g])
                && docs[j].applications.contains(id);
        let k = choose|k: int| 0 <= k < s.len() && s[k] == docs[j];
        assert(s[k].applications.contains(id));
    }
    assert(out[g].labels.contains(id) <==> has_label(s, id)) by {
        if s.len() == 1 {
            assert(out[g].labels == s[0].labels);
            assert(s[0].labels.contains(id) ==> has_label(s, id));
        }
    }
    if has_label(s, id) {
        let k = choose|k: int| 0 <= k < s.len() && (#[trigger] s[k]).labels.contains(id);
        assert(docs.contains(s[k]));
        let j = choose|j: int| 0 <= j < docs.len() && docs[j] == s[k];
        assert(same_product(docs[j], out[g]) && docs[j].labels.contains(id));
    }
    if exists|j: int|
        0 <= j < docs.len() && same_product(#[trigger] docs[j], out[g]) && docs[j].labels.contains(id) {
        let j = choose|j: int|
            0 <= j < docs.len() && same_product(#[trigger] docs[j], out[g])
                && docs[j].labels.contains(id);
        let k = choose|k: int| 0 <= k < s.len() && s[k] == docs[j];
        assert(s[k].labels.contains(id));
    }
    assert(out[g].adjustability.contains(id) <==> has_adjustability(s, id)) by {
        if s.len() == 1 {
            assert(out[g].adjustability == s[0].adjustability);
            assert(s[0].adjustability.contains(id) ==> has_adjustability(s, id));
        }
    }
    if has_adjustability(s, id) {
        let k = choose|k: int| 0 <= k < s.len() && (#[trigger] s[k]).adjustability.contains(id);
        assert(docs.contains(s[k]));
        let j = choose|j: int| 0 <= j < docs.len() && docs[j] == s[k];
        assert(same_product(docs[j], out[g]) && docs[j].adjustability.contains(id));
    }
    if exists|j: int|
        0 <= j < docs.len() && same_product(#[trigger] docs[j], out[g]) && docs[j].adjustability.contains(id) {
        let j = choose|j: int|
            0 <= j < docs.len() && same_product(#[trigger] docs[j], out[g])
                && docs[j].adjustability.contains(id);
        let k = choose|k: int| 0 <= k < s.len() && s[k] == docs[j];
        assert(s[k].adjustability.contains(id));
    }
    assert(out[g].keywords.contains(word) <==> has_keyword(s, word)) by {
        if s.len() == 1 {
            assert(out[g].keywords == s[0].keywords);
            assert(s[0].keywords.contains(word) ==> has_keyword(s, word));
        }
    }
    if has_keyword(s, word) {
        let k = choose|k: int| 0 <= k < s.len() && (#[trigger] s[k]).keywords.contains(word);
        assert(docs.contains(s[k]));
        let j = choose|j: int| 0 <= j < docs.len() && docs[j] == s[k];
        assert(same_product(docs[j], out[g]) && docs[j].keywords.contains(word));
    }
    if exists|j: int|
        0 <= j < docs.len() && same_product(#[trigger] docs[j], out[g]) && docs[j].keywords.contains(word) {
        let j = choose|j: int|
            0 <= j < docs.len() && same_product(#[trigger] docs[j], out[g])
                && docs[j].keywords.contains(word);
        let k = choose|k: int| 0 <= k < s.len() && s[k] == docs[j];
        assert(s[k].keywords.contains(word));
    }
    assert(out[g].descriptions.contains(tagged) <==> has_description(s, tagged)) by {
        if s.len() == 1 {
            assert(out[g].descriptions == s[0].descriptions);
            assert(s[0].descriptions.contains(tagged) ==> has_description(s, tagged));
        }
    }
    if has_description(s, tagged) {
        let k = choose|k: int| 0 <= k < s.len() && (#[trigger] s[k]).descriptions.contains(tagged);
        assert(docs.contains(s[k]));
        let j = choose|j: int| 0 <= j < docs.len() && docs[j] == s[k];
        assert(same_product(docs[j], out[g]) && docs[j].descriptions.contains(tagged));
    }
    if exists|j: int|
        0 <= j < docs.len() && same_product(#[trigger] docs[j], out[g]) && docs[j].descriptions.contains(tagged) {
        let j = choose|j: int|
            0 <= j < docs.len() && same_product(#[trigger] docs[j], out[g])
                && docs[j].descriptions.contains(tagged);
        let k = choose|k: int| 0 <= k < s.len() && s[k] == docs[j];
        assert(s[k].descriptions.contains(tagged));
    }
}

/// Whether two variants are the same but for their numbers.
pub open spec fn same_variant(a: VariantView, b: VariantView) -> bool {
    a == VariantView { id: a.id, source_index: a.source_index, ..b }
}

/// Every variant of a document is a variant of the document that its
/// product folded into, and leads back to the source of the document.
pub proof fn folded_variants_are_those_of_the_members(
    out: Seq<DocView>,
    docs: Seq<DocView>,
    g: int,
    j: int,
    k: int,
)
    requires
        is_folding(out, docs),
        0 <= g < out.len(),
        0 <= j < docs.len(),
        same_product(docs[j], out[g]),
        0 <= k < docs[j].variants.len(),
    ensures
        exists|n: int|
            0 <= n < out[g].variants.len() && same_variant(
                #[trigger] out[g].variants[n],
                docs[j].variants[k],
            ),
        docs.len() <= 65536 && members(
            docs,
            families(docs)[g],
        ).len() > 1 ==> exists|n: int|
            0 <= n < out[g].variants.len() && same_variant(
                #[trigger] out[g].variants[n],
                docs[j].variants[k],
            ) && out[g].variants[n].source_index < out[g].source_paths.len()
                && out[g].source_paths[out[g].variants[n].source_index as int] == docs[j].source,
{
    let s = folded_from(docs, g);
    folded_from_its_product(out, docs, g);
    by_identity_orders(members(docs, families(docs)[g]));
    let m = choose|m: int| 0 <= m < s.len() && s[m] == docs[j];
    if s.len() == 1 {
        assert(same_variant(out[g].variants[k], docs[j].variants[k]));
    } else {
        joined_holds(s, m, k);
        let n = choose|n: int|
            0 <= n < joined_variants(s).len() && #[trigger] joined_variants(s)[n] == renumbered(
                s[m].variants[k],
                n,
                m,
            );
        assert(same_variant(out[g].variants[n], docs[j].variants[k]));
        members_are_few(docs, families(docs)[g]);
        if docs.len() <= 65536 {
            assert(m % 65536 == m);
            assert(sources(s)[m] == s[m].source);
        }
    }
}

proof fn members_are_few(docs: Seq<DocView>, family: (Seq<char>, Seq<char>))
    ensures
        members(docs, family).len() <= docs.len(),
    decreases docs.len(),
{
    if docs.len() > 0 {
        members_are_few(docs.drop_last(), family);
    }
}

proof fn joined_holds(s: Seq<DocView>, m: int, k: int)
    requires
        0 <= m < s.len(),
        0 <= k < s[m].variants.len(),
    ensures
        exists|n: int|
            0 <= n < joined_variants(s).len() && #[trigger] joined_variants(s)[n] == renumbered(
                s[m].variants[k],
                n,
                m,
            ),
    decreases s.len(),
{
    let front = joined_variants(s.drop_last());
    let all = joined_variants(s);
    if m == s.len() - 1 {
        assert(all[front.len() + k] == renumbered(s[m].variants[k], front.len() + k, m));
    } else {
        assert(s.drop_last()[m] == s[m]);
        joined_holds(s.drop_last(), m, k);
        let n = choose|n: int|
            0 <= n < front.len() && #[trigger] front[n] == renumbered(s[m].variants[k], n, m);
        assert(all[n] == front[n]);
    }
}

/// The variants of a folded document are numbered in their order, and
/// each is a variant of a document of its product.
pub proof fn folded_variants_come_from_members(
    out: Seq<DocView>,
    docs: Seq<DocView>,
    g: int,
    n: int,
)
    requires
        is_folding(out, docs),
        0 <= g < out.len(),
        0 <= n < out[g].variants.len(),
        docs.len() <= 65536,
    ensures
        exists|j: int, k: int|
            0 <= j < docs.len() && same_product(docs[j], out[g]) && 0 <= k < docs[j].variants.len()
                && same_variant(out[g].variants[n], #[trigger] docs[j].variants[k]),
        members(docs, families(docs)[g]).len() > 1 ==> out[g].variants[n].id == n % 65536,
{
    let s = folded_from(docs, g);
    folded_from_its_product(out, docs, g);
    members_are_few(docs, families(docs)[g]);
    by_identity_orders(members(docs, families(docs)[g]));
    if s.len() == 1 {
        assert(docs.contains(s[0]));
        let j = choose|j: int| 0 <= j < docs.len() && docs[j] == s[0];
        assert(same_variant(out[g].variants[n], docs[j].variants[n]));
    } else {
        let o = variants_lead_to_their_source(s, n);
        assert(docs.contains(s[o.0]));
        let j = choose|j: int| 0 <= j < docs.len() && docs[j] == s[o.0];
        assert(same_variant(out[g].variants[n], docs[j].variants[o.1]));
    }
}

/// A folded document is as new as the newest of its product, and no
/// newer.
pub proof fn folded_time_is_the_latest(out: Seq<DocView>, docs: Seq<DocView>, g: int)
    requires
        is_folding(out, docs),
        0 <= g < out.len(),
    ensures
        forall|j: int|
            0 <= j < docs.len() && same_product(#[trigger] docs[j], out[g])
                && docs[j].file_meta.mtime_epoch_s is Some ==> out[g].file_meta.mtime_epoch_s is Some
                && out[g].file_meta.mtime_epoch_s->0 >= docs[j].file_meta.mtime_epoch_s->0,
        out[g].file_meta.mtime_epoch_s is Some ==> exists|j: int|
            0 <= j < docs.len() && same_product(#[trigger] docs[j], out[g])
                && docs[j].file_meta.mtime_epoch_s == out[g].file_meta.mtime_epoch_s,
{
    let s = folded_from(docs, g);
    folded_from_its_product(out, docs, g);
    by_identity_orders(members(docs, families(docs)[g]));
    latest_is_latest(s);
    if s.len() == 1 {
        assert(out[g].file_meta == s[0].file_meta);
    }
    assert forall|j: int|
        0 <= j < docs.len() && same_product(#[trigger] docs[j], out[g])
            && docs[j].file_meta.mtime_epoch_s is Some implies out[g].file_meta.mtime_epoch_s is Some
        && out[g].file_meta.mtime_epoch_s->0 >= docs[j].file_meta.mtime_epoch_s->0 by {
        let k = choose|k: int| 0 <= k < s.len() && s[k] == docs[j];
        assert(s[k].file_meta.mtime_epoch_s is Some);
    }
    if out[g].file_meta.mtime_epoch_s is Some {
        let k = if s.len() == 1 {
            0
        } else {
            choose|k: int|
                0 <= k < s.len() && (#[trigger] s[k]).file_meta.mtime_epoch_s == latest(s)
        };
        assert(docs.contains(s[k]));
        let j = choose|j: int| 0 <= j < docs.len() && docs[j] == s[k];
        assert(same_product(docs[j], out[g]));
    }
}

proof fn latest_is_latest(s: Seq<DocView>)
    ensures
        forall|k: int|
            0 <= k < s.len() && (#[trigger] s[k]).file_meta.mtime_epoch_s is Some ==> latest(
                s,
            ) is Some && latest(s)->0 >= s[k].file_meta.mtime_epoch_s->0,
        latest(s) is Some ==> exists|k: int|
            0 <= k < s.len() && (#[trigger] s[k]).file_meta.mtime_epoch_s == latest(s),
    decreases s.len(),
{
    if s.len() > 0 {
        let front = s.drop_last();
        latest_is_latest(front);
        assert forall|k: int|
            0 <= k < s.len() && (#[trigger] s[k]).file_meta.mtime_epoch_s is Some implies latest(
            s,
        ) is Some && latest(s)->0 >= s[k].file_meta.mtime_epoch_s->0 by {
            if k < front.len() {
                assert(front[k] == s[k]);
            }
        }
        if latest(s) is Some {
            if latest(s) == latest(front) {
                let k = choose|k: int|
                    0 <= k < front.len() && (#[trigger] front[k]).file_meta.mtime_epoch_s == latest(
                        front,
                    );
                assert(s[k] == front[k]);
            } else {
                assert(s[s.len() - 1].file_meta.mtime_epoch_s == latest(s));
            }
        }
    }
}

/// The size of a folded document is that of the files of its product
/// together, as far as it can be held.
pub proof fn folded_size_is_the_sum(out: Seq<DocView>, docs: Seq<DocView>, g: int)
    requires
        is_folding(out, docs),
        0 <= g < out.len(),
    ensures
        size_of_product(docs, out[g]) <= u64::MAX ==> out[g].file_meta.size_bytes
            == size_of_product(docs, out[g]),
        size_of_product(docs, out[g]) > u64::MAX ==> out[g].file_meta.size_bytes == u64::MAX,
{
    let fam = families(docs)[g];
    let group = members(docs, fam);
    families_are_exact(docs);
    family_doc_belongs(out[g], fam, docs);
    sizes_of_members(docs, out[g]);
    by_identity_size(group);
    if group.len() == 1 {
        assert(group.drop_last() =~= Seq::empty());
        assert(total_size(group.drop_last()) == 0);
    }
}

/// The sizes of the files of a product together.
pub open spec fn size_of_product(docs: Seq<DocView>, d: DocView) -> nat
    decreases docs.len(),
{
    if docs.len() == 0 {
        0
    } else {
        size_of_product(docs.drop_last(), d) + if same_product(docs.last(), d) {
            docs.last().file_meta.size_bytes as nat
        } else {
            0
        }
    }
}

proof fn sizes_of_members(docs: Seq<DocView>, d: DocView)
    ensures
        total_size(members(docs, family_of(d))) == size_of_product(docs, d),
    decreases docs.len(),
{
    if docs.len() > 0 {
        sizes_of_members(docs.drop_last(), d);
        let front = members(docs.drop_last(), family_of(d));
        assert(front.push(docs.last()).drop_last() =~= front);
    }
}

proof fn by_identity_size(s: Seq<DocView>)
    ensures
        total_size(by_identity(s)) == total_size(s),
    decreases s.len(),
{
    if s.len() > 0 {
        by_identity_size(s.drop_last());
        placed_size(by_identity(s.drop_last()), s.last());
    }
}

proof fn placed_size(s: Seq<DocView>, d: DocView)
    ensures
        total_size(placed(s, d)) == total_size(s) + d.file_meta.size_bytes,
    decreases s.len(),
{
    if s.len() == 0 || !bytes_lt(d.id, s.last().id) {
        assert(s.push(d).drop_last() =~= s);
    } else {
        placed_size(s.drop_last(), d);
        assert(placed(s.drop_last(), d).push(s.last()).drop_last() =~= placed(s.drop_last(), d));
    }
}

/// A document that has its product to itself is left as it is, but for
/// naming its own source where it named none.
pub proof fn lone_documents_are_kept(out: Seq<DocView>, docs: Seq<DocView>, g: int, j: int)
    requires
        is_folding(out, docs),
        0 <= g < out.len(),
        0 <= j < docs.len(),
        same_product(docs[j], out[g]),
        forall|i: int| 0 <= i < docs.len() && i != j ==> !same_product(#[trigger] docs[i], out[g]),
    ensures
        out[g] == (DocView { source_paths: out[g].source_paths, ..docs[j] }),
        docs[j].source_paths.len() > 0 ==> out[g] == docs[j],
        docs[j].source_paths.len() == 0 ==> out[g].source_paths == seq![docs[j].source],
{
    let fam = families(docs)[g];
    families_are_exact(docs);
    family_doc_belongs(out[g], fam, docs);
    lone_member(docs, j);
}

proof fn lone_member(docs: Seq<DocView>, j: int)
    requires
        0 <= j < docs.len(),
        forall|i: int|
            0 <= i < docs.len() && i != j ==> family_of(#[trigger] docs[i]) != family_of(docs[j]),
    ensures
        members(docs, family_of(docs[j])) == seq![docs[j]],
    decreases docs.len(),
{
    let front = docs.drop_last();
    let fam = family_of(docs[j]);
    if j == docs.len() - 1 {
        assert forall|i: int| 0 <= i < front.len() implies family_of(#[trigger] front[i]) != fam by {
            assert(family_of(docs[i]) != fam);
        }
        members_absent(front, fam);
        assert(members(docs, fam) =~= seq![docs[j]]);
    } else {
        assert(family_of(docs[docs.len() - 1]) != fam);
        assert(front[j] == docs[j]);
        assert forall|i: int| 0 <= i < front.len() && i != j implies family_of(#[trigger] front[i])
            != fam by {
            assert(family_of(docs[i]) != fam);
        }
        lone_member(front, j);
    }
}

/// What several documents fold into has an identity of its own, made of
/// the names of the manufacturer and the product, and names the sources
/// of all of them.
pub proof fn families_have_their_own_identity(out: Seq<DocView>, docs: Seq<DocView>, g: int)
    requires
        is_folding(out, docs),
        0 <= g < out.len(),
        members(docs, families(docs)[g]).len() > 1,
    ensures
        out[g].id == blake3_digest(
            encode_utf8("family:"@ + out[g].manufacturer + ":"@ + out[g].product),
        ),
        forall|j: int|
            0 <= j < docs.len() && same_product(#[trigger] docs[j], out[g])
                ==> out[g].source_paths.contains(docs[j].source),
{
    let s = folded_from(docs, g);
    folded_from_its_product(out, docs, g);
    by_identity_orders(members(docs, families(docs)[g]));
    assert forall|j: int|
        0 <= j < docs.len() && same_product(#[trigger] docs[j], out[g]) implies out[g].source_paths.contains(
        docs[j].source,
    ) by {
        let k = choose|k: int| 0 <= k < s.len() && s[k] == docs[j];
        assert(sources(s)[k] == docs[j].source);
    }
}

/// Products keep the order in which they first occur.
pub proof fn products_keep_their_order(out: Seq<DocView>, docs: Seq<DocView>, g: int, h: int, i: int, j: int)
    requires
        is_folding(out, docs),
        0 <= g < out.len(),
        0 <= h < out.len(),
        0 <= i < j < docs.len(),
        same_product(docs[i], out[g]),
        same_product(docs[j], out[h]),
        forall|k: int| 0 <= k < j ==> !same_product(#[trigger] docs[k], out[h]),
    ensures
        g < h,
{
    let fams = families(docs);
    families_are_exact(docs);
    family_doc_belongs(out[g], fams[g], docs);
    family_doc_belongs(out[h], fams[h], docs);
    let early = families(docs.take(j));
    families_begin(docs, j);
    families_are_exact(docs.take(j));
    assert(docs.take(j)[i] == docs[i]);
    assert(early.contains(family_of(docs.take(j)[i])));
    let a = choose|a: int| 0 <= a < early.len() && early[a] == family_of(docs[i]);
    assert(fams[a] == early[a]);
    assert(a == g);
    if h < early.len() {
        assert(members(docs.take(j), early[h]).len() > 0);
        let m = member_origin(docs.take(j), early[h], 0);
        assert(docs.take(j)[m] == docs[m]);
        assert(fams[h] == early[h]);
        assert(same_product(docs[m], out[h]));
    }
}

proof fn families_begin(docs: Seq<DocView>, n: int)
    requires
        0 <= n <= docs.len(),
    ensures
        families(docs.take(n)).len() <= families(docs).len(),
        forall|k: int|
            0 <= k < families(docs.take(n)).len() ==> #[trigger] families(docs.take(n))[k]
                == families(docs)[k],
    decreases docs.len(),
{
    if n == docs.len() {
        assert(docs.take(n) =~= docs);
    } else {
        assert(docs.drop_last().take(n) =~= docs.take(n));
        families_begin(docs.drop_last(), n);
    }
}

} // verus!
