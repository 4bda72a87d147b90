//! The descriptive text of a product, gathered by language.

use crate::doc::{locale_lt, locale_of, tagged_views, Locale};
use crate::product::{entry_views, LocaleEntry, Product, ProductVariantView, ProductView};
use crate::sets::locale_before;
use crate::text::{found_texts_are_there, has_infix, parts_are_found, push_text, trim, trimmed};
use vstd::prelude::*;

verus! {

/// Whether the languages of `s` rise strictly and no text is empty.
pub open spec fn well_gathered(s: Seq<(Locale, Seq<char>)>) -> bool {
    &&& forall|i: int, j: int|
        0 <= i < j < s.len() ==> locale_lt(#[trigger] s[i].0, #[trigger] s[j].0)
    &&& forall|i: int| 0 <= i < s.len() ==> (#[trigger] s[i]).1.len() > 0
}

/// The text in a language, empty where there is none.
pub open spec fn text_in(s: Seq<(Locale, Seq<char>)>, l: Locale) -> Seq<char>
    decreases s.len(),
{
    if s.len() == 0 {
        Seq::empty()
    } else if s.last().0 == l {
        s.last().1
    } else {
        text_in(s.drop_last(), l)
    }
}

/// Whether an entry adds to the text in a language: its code is that of
/// the language and its text is not blank.
pub open spec fn adds_to(e: (Seq<char>, Seq<char>), l: Locale) -> bool {
    trim(e.1).len() > 0 && locale_of(e.0) == Some(l)
}

/// A text with one more after it, a space between them.
pub open spec fn joined(t: Seq<char>, value: Seq<char>) -> Seq<char> {
    if t.len() == 0 {
        value
    } else {
        t.push(' ') + value
    }
}

/// The text `t` in a language after the entries of `bag`.
pub open spec fn gathered(t: Seq<char>, bag: Seq<(Seq<char>, Seq<char>)>, l: Locale) -> Seq<char>
    decreases bag.len(),
{
    if bag.len() == 0 {
        t
    } else {
        let front = gathered(t, bag.drop_last(), l);
        if adds_to(bag.last(), l) {
            joined(front, bag.last().1)
        } else {
            front
        }
    }
}

/// Gathering two lists is gathering one after the other.
pub proof fn gathering_continues(
    t: Seq<char>,
    a: Seq<(Seq<char>, Seq<char>)>,
    b: Seq<(Seq<char>, Seq<char>)>,
    l: Locale,
)
    ensures
        gathered(t, a + b, l) == gathered(gathered(t, a, l), b, l),
    decreases b.len(),
{
    if b.len() == 0 {
        assert(a + b =~= a);
    } else {
        assert((a + b).drop_last() =~= a + b.drop_last());
        assert((a + b).last() == b.last());
        gathering_continues(t, a, b.drop_last(), l);
    }
}

/// The entries of the first `n` variants: names, descriptions, product
/// numbers and tender texts.
pub open spec fn variant_entries(vs: Seq<ProductVariantView>, n: int) -> Seq<
    (Seq<char>, Seq<char>),
>
    decreases n,
{
    if n <= 0 {
        Seq::empty()
    } else {
        variant_entries(vs, n - 1) + vs[n - 1].name + vs[n - 1].description
            + vs[n - 1].product_number + vs[n - 1].tender_text
    }
}

/// All entries of a product, those of the product before those of its
/// variants.
pub open spec fn product_entries(p: ProductView) -> Seq<(Seq<char>, Seq<char>)> {
    p.name + p.description + p.tender_text + p.product_number + variant_entries(
        p.variants,
        p.variants.len() as int,
    )
}

/// Whether `r` is the text of a product by language.
pub open spec fn is_gathered(p: ProductView, r: Seq<(Locale, Seq<char>)>) -> bool {
    well_gathered(r) && forall|l: Locale|
        #[trigger] text_in(r, l) == gathered(Seq::empty(), product_entries(p), l)
}

/// The text at a place is the text in the language of that place.
pub proof fn text_at(s: Seq<(Locale, Seq<char>)>, k: int)
    requires
        well_gathered(s),
        0 <= k < s.len(),
    ensures
        text_in(s, s[k].0) == s[k].1,
    decreases s.len(),
{
    if k < s.len() - 1 {
        let t = s.drop_last();
        assert(locale_lt(s[k].0, s[s.len() - 1].0));
        assert(well_gathered(t)) by {
            assert forall|i: int, j: int| 0 <= i < j < t.len() implies locale_lt(
                #[trigger] t[i].0,
                #[trigger] t[j].0,
            ) by {
                assert(locale_lt(s[i].0, s[j].0));
            }
            assert forall|i: int| 0 <= i < t.len() implies (#[trigger] t[i]).1.len() > 0 by {
                assert(s[i].1.len() > 0);
            }
        }
        text_at(t, k);
        assert(t[k] == s[k]);
    }
}

/// A language that stands nowhere has no text.
pub proof fn text_nowhere(s: Seq<(Locale, Seq<char>)>, l: Locale)
    requires
        forall|k: int| 0 <= k < s.len() ==> (#[trigger] s[k]).0 != l,
    ensures
        text_in(s, l).len() == 0,
    decreases s.len(),
{
    if s.len() > 0 {
        let t = s.drop_last();
        assert(s[s.len() - 1].0 != l);
        assert forall|k: int| 0 <= k < t.len() implies (#[trigger] t[k]).0 != l by {
            assert(s[k].0 != l);
        }
        text_nowhere(t, l);
    }
}

/// A language with a text stands somewhere.
proof fn place_of(s: Seq<(Locale, Seq<char>)>, l: Locale) -> (k: int)
    requires
        text_in(s, l).len() > 0,
    ensures
        0 <= k < s.len(),
        s[k].0 == l,
    decreases s.len(),
{
    if s.last().0 == l {
        s.len() - 1
    } else {
        place_of(s.drop_last(), l)
    }
}

/// A text that is not blank stands in the texts of its language.
proof fn gathered_holds(t: Seq<char>, bag: Seq<(Seq<char>, Seq<char>)>, l: Locale, k: int)
    requires
        0 <= k < bag.len(),
        adds_to(bag[k], l),
    ensures
        has_infix(gathered(t, bag, l), bag[k].1),
    decreases bag.len(),
{
    let front = gathered(t, bag.drop_last(), l);
    let all = gathered(t, bag, l);
    if k == bag.len() - 1 {
        let head = if front.len() == 0 {
            Seq::empty()
        } else {
            front.push(' ')
        };
        parts_are_found(head, bag[k].1, Seq::empty());
        assert(all =~= head + bag[k].1 + Seq::empty());
    } else {
        assert(bag.drop_last()[k] == bag[k]);
        gathered_holds(t, bag.drop_last(), l, k);
        found_texts_are_there(front, bag[k].1);
        let (a, c) = choose|a: Seq<char>, c: Seq<char>| front == #[trigger] (a + bag[k].1 + c);
        if adds_to(bag.last(), l) && front.len() > 0 {
            parts_are_found(a, bag[k].1, c.push(' ') + bag.last().1);
            assert(all =~= a + bag[k].1 + (c.push(' ') + bag.last().1));
        } else if adds_to(bag.last(), l) {
            assert(bag[k].1.len() == 0);
            assert(trim(bag[k].1) =~= bag[k].1);
        }
    }
}

/// A text is set apart from the one before it by a space, and a blank one
/// adds nothing.
pub proof fn texts_are_set_apart(t: Seq<char>, e: (Seq<char>, Seq<char>), l: Locale)
    ensures
        t.len() > 0 && trim(e.1).len() > 0 && locale_of(e.0) == Some(l) ==> gathered(t, seq![e], l)
            == t + seq![' '] + e.1,
        trim(e.1).len() > 0 && locale_of(e.0) == Some(l) ==> gathered(Seq::empty(), seq![e], l)
            == e.1,
        trim(e.1).len() == 0 || locale_of(e.0) != Some(l) ==> gathered(t, seq![e], l) == t,
{
    let bag = seq![e];
    assert(bag.drop_last() =~= Seq::empty());
    assert(gathered(t, bag.drop_last(), l) == t);
    assert(gathered(Seq::empty(), bag.drop_last(), l) =~= Seq::empty());
    assert(t.push(' ') + e.1 =~= t + seq![' '] + e.1);
}

/// Whether a text of a product, or of one of its variants, is among its
/// names, descriptions, tender texts and product numbers.
pub open spec fn is_text_of(p: ProductView, e: (Seq<char>, Seq<char>)) -> bool {
    ||| p.name.contains(e)
    ||| p.description.contains(e)
    ||| p.tender_text.contains(e)
    ||| p.product_number.contains(e)
    ||| exists|i: int|
        0 <= i < p.variants.len() && {
            ||| (#[trigger] p.variants[i]).name.contains(e)
            ||| p.variants[i].description.contains(e)
            ||| p.variants[i].tender_text.contains(e)
            ||| p.variants[i].product_number.contains(e)
        }
}

proof fn in_both(a: Seq<(Seq<char>, Seq<char>)>, b: Seq<(Seq<char>, Seq<char>)>, e: (Seq<char>, Seq<char>))
    ensures
        (a + b).contains(e) <==> a.contains(e) || b.contains(e),
{
    if a.contains(e) {
        let i = choose|i: int| 0 <= i < a.len() && a[i] == e;
        assert((a + b)[i] == e);
    }
    if b.contains(e) {
        let i = choose|i: int| 0 <= i < b.len() && b[i] == e;
        assert((a + b)[a.len() + i] == e);
    }
}

proof fn variant_texts_are_entries(vs: Seq<ProductVariantView>, n: int, e: (Seq<char>, Seq<char>))
    requires
        0 <= n <= vs.len(),
    ensures
        variant_entries(vs, n).contains(e) <==> exists|i: int|
            0 <= i < n && {
                ||| (#[trigger] vs[i]).name.contains(e)
                ||| vs[i].description.contains(e)
                ||| vs[i].tender_text.contains(e)
                ||| vs[i].product_number.contains(e)
            },
    decreases n,
{
    if n > 0 {
        variant_texts_are_entries(vs, n - 1, e);
        let v = vs[n - 1];
        let front = variant_entries(vs, n - 1);
        in_both(front, v.name, e);
        in_both(front + v.name, v.description, e);
        in_both(front + v.name + v.description, v.product_number, e);
        in_both(front + v.name + v.description + v.product_number, v.tender_text, e);
        if v.name.contains(e) || v.description.contains(e) || v.tender_text.contains(e)
            || v.product_number.contains(e) {
            assert(vs[n - 1].name == v.name);
        }
    }
}

/// Every text of a product that is not blank and whose language is told
/// by two letters stands in the document under that language.
pub proof fn texts_of_products_are_kept(
    p: ProductView,
    r: Seq<(Locale, Seq<char>)>,
    language: Seq<char>,
    value: Seq<char>,
)
    requires
        is_gathered(p, r),
        is_text_of(p, (language, value)),
        trim(value).len() > 0,
        locale_of(language) is Some,
    ensures
        exists|k: int|
            0 <= k < r.len() && (#[trigger] r[k]).0 == locale_of(language)->0 && has_infix(
                r[k].1,
                value,
            ),
{
    let e = (language, value);
    let l = locale_of(language)->0;
    let bag = product_entries(p);
    entries_are_texts(p, e);
    let k = choose|k: int| 0 <= k < bag.len() && bag[k] == e;
    gathered_holds(Seq::empty(), bag, l, k);
    let t = gathered(Seq::empty(), bag, l);
    assert(text_in(r, l) == t);
    parts_are_found(t, value, Seq::empty());
    assert(t.len() > 0) by {
        if value.len() == 0 {
            assert(trim(value) =~= value);
        }
    }
    let at = place_of(r, l);
    text_at(r, at);
}

/// The texts of a product are gathered, and nothing else is.
pub proof fn entries_are_texts(p: ProductView, e: (Seq<char>, Seq<char>))
    ensures
        product_entries(p).contains(e) <==> is_text_of(p, e),
{
    let tail = variant_entries(p.variants, p.variants.len() as int);
    variant_texts_are_entries(p.variants, p.variants.len() as int, e);
    in_both(p.name, p.description, e);
    in_both(p.name + p.description, p.tender_text, e);
    in_both(p.name + p.description + p.tender_text, p.product_number, e);
    in_both(p.name + p.description + p.tender_text + p.product_number, tail, e);
}

/// A document has a text in a language only where the product has one.
pub proof fn texts_come_from_products(p: ProductView, r: Seq<(Locale, Seq<char>)>, k: int)
    requires
        is_gathered(p, r),
        0 <= k < r.len(),
    ensures
        exists|e: (Seq<char>, Seq<char>)|
            #[trigger] is_text_of(p, e) && locale_of(e.0) == Some(r[k].0) && trim(e.1).len() > 0,
{
    text_at(r, k);
    let bag = product_entries(p);
    let l = r[k].0;
    assert(text_in(r, l).len() > 0);
    gathered_from_some(bag, l);
    let j = choose|j: int| 0 <= j < bag.len() && adds_to(#[trigger] bag[j], l);
    entries_are_texts(p, bag[j]);
    assert(is_text_of(p, bag[j]));
}

proof fn gathered_from_some(bag: Seq<(Seq<char>, Seq<char>)>, l: Locale)
    requires
        gathered(Seq::empty(), bag, l).len() > 0,
    ensures
        exists|j: int| 0 <= j < bag.len() && adds_to(#[trigger] bag[j], l),
    decreases bag.len(),
{
    if bag.len() > 0 {
        if adds_to(bag.last(), l) {
            assert(adds_to(bag[bag.len() - 1], l));
        } else {
            gathered_from_some(bag.drop_last(), l);
            let j = choose|j: int|
                0 <= j < bag.drop_last().len() && adds_to(#[trigger] bag.drop_last()[j], l);
            assert(adds_to(bag[j], l));
        }
    }
}

/// A language is told by two ASCII letters, in either case, and by
/// nothing else.
pub proof fn languages_have_two_letters(a: char, b: char, s: Seq<char>)
    requires
        'a' <= a <= 'z',
        'a' <= b <= 'z',
    ensures
        locale_of(seq![a, b]) == Some(Locale(a as u8, b as u8)),
        locale_of(seq![((a as u32) - 32) as char, ((b as u32) - 32) as char]) == locale_of(
            seq![a, b],
        ),
        s.len() != 2 ==> locale_of(s) is None,
        locale_of(seq!['-', b]) is None,
{
}

/// The texts by language determine the list.
pub proof fn gathered_is_unique(a: Seq<(Locale, Seq<char>)>, b: Seq<(Locale, Seq<char>)>)
    requires
        well_gathered(a),
        well_gathered(b),
        forall|l: Locale| #[trigger] text_in(a, l) == text_in(b, l),
    ensures
        a == b,
    decreases a.len() + b.len(),
{
    if a.len() > 0 && b.len() > 0 {
        let la = a.last();
        let lb = b.last();
        text_at(a, a.len() - 1);
        text_at(b, b.len() - 1);
        assert(text_in(b, la.0).len() > 0);
        assert(text_in(a, lb.0).len() > 0);
        let i = place_of(b, la.0);
        let j = place_of(a, lb.0);
        assert(la.0 == lb.0) by {
            if i < b.len() - 1 {
                assert(locale_lt(b[i].0, b[b.len() - 1].0));
            }
            if j < a.len() - 1 {
                assert(locale_lt(a[j].0, a[a.len() - 1].0));
            }
        }
        let ta = a.drop_last();
        let tb = b.drop_last();
        front_gathered(a);
        front_gathered(b);
        assert forall|l: Locale| #[trigger] text_in(ta, l) == text_in(tb, l) by {
            if l == la.0 {
                text_nowhere(ta, l);
                text_nowhere(tb, l);
                assert(text_in(ta, l) =~= text_in(tb, l));
            } else {
                assert(text_in(a, l) == text_in(b, l));
            }
        }
        gathered_is_unique(ta, tb);
        assert(a =~= ta.push(la));
        assert(b =~= tb.push(lb));
    } else if a.len() > 0 {
        text_at(a, a.len() - 1);
        assert(text_in(b, a.last().0).len() > 0);
    } else if b.len() > 0 {
        text_at(b, b.len() - 1);
        assert(text_in(a, b.last().0).len() > 0);
    } else {
        assert(a =~= b);
    }
}

proof fn front_gathered(s: Seq<(Locale, Seq<char>)>)
    requires
        well_gathered(s),
        s.len() > 0,
    ensures
        well_gathered(s.drop_last()),
        forall|k: int| 0 <= k < s.drop_last().len() ==> (#[trigger] s.drop_last()[k]).0 != s.last().0,
{
    let t = s.drop_last();
    assert forall|i: int, j: int| 0 <= i < j < t.len() implies locale_lt(
        #[trigger] t[i].0,
        #[trigger] t[j].0,
    ) by {
        assert(locale_lt(s[i].0, s[j].0));
    }
    assert forall|i: int| 0 <= i < t.len() implies (#[trigger] t[i]).1.len() > 0 && t[i].0
        != s.last().0 by {
        assert(s[i].1.len() > 0);
        assert(locale_lt(s[i].0, s[s.len() - 1].0));
    }
}

/// The text in a language; `None` where there is none.
pub fn text_for<'a>(list: &'a Vec<(Locale, String)>, l: Locale) -> (r: Option<&'a str>)
    requires
        well_gathered(tagged_views(list@)),
    ensures
        match r {
            Some(t) => t@ == text_in(tagged_views(list@), l) && t@.len() > 0,
            None => text_in(tagged_views(list@), l).len() == 0,
        },
{
    let ghost views = tagged_views(list@);
    let mut i: usize = 0;
    while i < list.len()
        invariant
            i <= list@.len(),
            views == tagged_views(list@),
            well_gathered(views),
            forall|k: int| 0 <= k < i ==> (#[trigger] views[k]).0 != l,
        decreases list@.len() - i,
    {
        proof {
            assert(views[i as int] == (list@[i as int].0, list@[i as int].1@));
        }
        if list[i].0 == l {
            proof {
                text_at(views, i as int);
            }
            return Some(list[i].1.as_str());
        }
        i += 1;
    }
    proof {
        text_nowhere(views, l);
    }
    None
}

/// Adds one text in a language.
fn push_value(out: &mut Vec<(Locale, String)>, l: Locale, value: &str)
    requires
        well_gathered(tagged_views(old(out)@)),
        value@.len() > 0,
    ensures
        well_gathered(tagged_views(final(out)@)),
        forall|m: Locale|
            #[trigger] text_in(tagged_views(final(out)@), m) == (if m == l {
                joined(text_in(tagged_views(old(out)@), m), value@)
            } else {
                text_in(tagged_views(old(out)@), m)
            }),
{
    let ghost before = tagged_views(out@);
    let mut i: usize = 0;
    while i < out.len() && locale_before(out[i].0, l)
        invariant
            i <= out@.len(),
            tagged_views(out@) == before,
            forall|k: int| 0 <= k < i ==> locale_lt((#[trigger] before[k]).0, l),
        decreases out@.len() - i,
    {
        proof {
            assert(before[i as int] == (out@[i as int].0, out@[i as int].1@));
        }
        i += 1;
    }
    let ghost at = i as int;
    proof {
        if i < out@.len() {
            assert(before[at] == (out@[at].0, out@[at].1@));
        }
    }
    if i < out.len() && out[i].0 == l {
        let mut t: String = out[i].1.clone();
        t.push(' ');
        push_text(&mut t, value);
        let ghost new = t@;
        out.set(i, (l, t));
        proof {
            let after = tagged_views(out@);
            assert(after =~= before.update(at, (l, new)));
            assert(before[at].1.len() > 0);
            text_at(before, at);
            assert(new == joined(before[at].1, value@));
            assert(well_gathered(after)) by {
                assert forall|a: int, b: int| 0 <= a < b < after.len() implies locale_lt(
                    #[trigger] after[a].0,
                    #[trigger] after[b].0,
                ) by {
                    assert(locale_lt(before[a].0, before[b].0));
                }
                assert forall|a: int| 0 <= a < after.len() implies (#[trigger] after[a]).1.len()
                    > 0 by {
                    assert(before[a].1.len() > 0);
                }
            }
            text_at(after, at);
            assert forall|m: Locale| m != l implies #[trigger] text_in(after, m) == text_in(
                before,
                m,
            ) by {
                update_elsewhere(before, at, (l, new), m);
            }
        }
    } else {
        out.insert(i, (l, crate::text::owned(value)));
        proof {
            let after = tagged_views(out@);
            assert(after =~= before.insert(at, (l, value@)));
            assert forall|k: int| 0 <= k < before.len() implies (#[trigger] before[k]).0 != l by {
                if k >= at {
                    if k > at {
                        assert(locale_lt(before[at].0, before[k].0));
                    }
                }
            }
            assert(well_gathered(after)) by {
                assert forall|a: int, b: int| 0 <= a < b < after.len() implies locale_lt(
                    #[trigger] after[a].0,
                    #[trigger] after[b].0,
                ) by {
                    if b < at {
                        assert(locale_lt(before[a].0, before[b].0));
                    } else if b == at {
                        assert(locale_lt(before[a].0, l));
                    } else if a == at {
                        if b - 1 > at {
                            assert(locale_lt(before[at].0, before[b - 1].0));
                        }
                    } else {
                        let c = if a < at {
                            a
                        } else {
                            a - 1
                        };
                        assert(locale_lt(before[c].0, before[b - 1].0));
                    }
                }
                assert forall|a: int| 0 <= a < after.len() implies (#[trigger] after[a]).1.len()
                    > 0 by {
                    if a < at {
                        assert(before[a].1.len() > 0);
                    } else if a > at {
                        assert(before[a - 1].1.len() > 0);
                    }
                }
            }
            text_at(after, at);
            text_nowhere(before, l);
            assert forall|m: Locale| m != l implies #[trigger] text_in(after, m) == text_in(
                before,
                m,
            ) by {
                insert_elsewhere(before, at, (l, value@), m);
            }
        }
    }
}

proof fn update_elsewhere(
    s: Seq<(Locale, Seq<char>)>,
    at: int,
    e: (Locale, Seq<char>),
    m: Locale,
)
    requires
        0 <= at < s.len(),
        s[at].0 == e.0,
        m != e.0,
    ensures
        text_in(s.update(at, e), m) == text_in(s, m),
    decreases s.len(),
{
    let u = s.update(at, e);
    if at == s.len() - 1 {
        assert(u.drop_last() =~= s.drop_last());
    } else {
        assert(u.drop_last() =~= s.drop_last().update(at, e));
        update_elsewhere(s.drop_last(), at, e, m);
    }
}

proof fn insert_elsewhere(
    s: Seq<(Locale, Seq<char>)>,
    at: int,
    e: (Locale, Seq<char>),
    m: Locale,
)
    requires
        0 <= at <= s.len(),
        m != e.0,
    ensures
        text_in(s.insert(at, e), m) == text_in(s, m),
    decreases s.len(),
{
    let u = s.insert(at, e);
    if at == s.len() {
        assert(u.drop_last() =~= s);
    } else {
        assert(u.drop_last() =~= s.drop_last().insert(at, e));
        assert(u.last() == s.last());
        insert_elsewhere(s.drop_last(), at, e, m);
    }
}

/// Text with white space around it is no shorter than without.
proof fn blank_is_all_that_trims_away(s: Seq<char>)
    requires
        trim(s).len() > 0,
    ensures
        s.len() > 0,
{
}

/// Adds the entries of a list, each to the text in its language. Blank
/// texts and codes of other than two letters are passed over.
pub fn push_from_locale_foo(bag: &Vec<LocaleEntry>, out: &mut Vec<(Locale, String)>)
    requires
        well_gathered(tagged_views(old(out)@)),
    ensures
        well_gathered(tagged_views(final(out)@)),
        forall|l: Locale|
            #[trigger] text_in(tagged_views(final(out)@), l) == gathered(
                text_in(tagged_views(old(out)@), l),
                entry_views(bag@),
                l,
            ),
{
    let ghost start = tagged_views(out@);
    let ghost views = entry_views(bag@);
    let mut i: usize = 0;
    proof {
        assert(views.take(0) =~= Seq::empty());
    }
    while i < bag.len()
        invariant
            i <= bag@.len(),
            views == entry_views(bag@),
            well_gathered(tagged_views(out@)),
            forall|l: Locale|
                #[trigger] text_in(tagged_views(out@), l) == gathered(
                    text_in(start, l),
                    views.take(i as int),
                    l,
                ),
        decreases bag@.len() - i,
    {
        proof {
            assert(views[i as int] == bag@[i as int]@);
            assert(views.take(i + 1).drop_last() =~= views.take(i as int));
            assert(views.take(i + 1).last() == views[i as int]);
        }
        let ghost before = tagged_views(out@);
        let t: String = trimmed(bag[i].value.as_str());
        if !t.as_str().is_empty() {
            proof {
                blank_is_all_that_trims_away(bag@[i as int].value@);
            }
            match Locale::from_str(bag[i].language.as_str()) {
                Some(l) => {
                    push_value(out, l, bag[i].value.as_str());
                },
                None => {},
            }
        }
        proof {
            let after = tagged_views(out@);
            assert forall|l: Locale| #[trigger] text_in(after, l) == gathered(
                text_in(start, l),
                views.take(i + 1),
                l,
            ) by {
                assert(text_in(before, l) == gathered(text_in(start, l), views.take(i as int), l));
            }
        }
        i += 1;
    }
    proof {
        assert(views.take(views.len() as int) =~= views);
    }
}

/// Adds the entries of a list to what has been gathered.
fn gather_more(bag: &Vec<LocaleEntry>, out: &mut Vec<(Locale, String)>, done: Ghost<
    Seq<(Seq<char>, Seq<char>)>,
>)
    requires
        well_gathered(tagged_views(old(out)@)),
        forall|l: Locale|
            #[trigger] text_in(tagged_views(old(out)@), l) == gathered(Seq::empty(), done@, l),
    ensures
        well_gathered(tagged_views(final(out)@)),
        forall|l: Locale|
            #[trigger] text_in(tagged_views(final(out)@), l) == gathered(
                Seq::empty(),
                done@ + entry_views(bag@),
                l,
            ),
{
    let ghost before = tagged_views(out@);
    push_from_locale_foo(bag, out);
    proof {
        assert forall|l: Locale| #[trigger] text_in(tagged_views(out@), l) == gathered(
            Seq::empty(),
            done@ + entry_views(bag@),
            l,
        ) by {
            assert(text_in(before, l) == gathered(Seq::empty(), done@, l));
            gathering_continues(Seq::empty(), done@, entry_views(bag@), l);
        }
    }
}

/// The text of a product by language.
pub fn gather_descriptions(p: &Product) -> (r: Vec<(Locale, String)>)
    ensures
        is_gathered(p@, tagged_views(r@)),
{
    let mut out: Vec<(Locale, String)> = Vec::new();
    let ghost v = p@;
    proof {
        assert(tagged_views(out@) =~= Seq::empty());
        assert(Seq::<(Seq<char>, Seq<char>)>::empty() + v.name =~= v.name);
    }
    gather_more(&p.name, &mut out, Ghost(Seq::empty()));
    gather_more(&p.description, &mut out, Ghost(v.name));
    gather_more(&p.tender_text, &mut out, Ghost(v.name + v.description));
    gather_more(&p.product_number, &mut out, Ghost(v.name + v.description + v.tender_text));
    let ghost own = v.name + v.description + v.tender_text + v.product_number;
    let mut i: usize = 0;
    proof {
        assert(own + variant_entries(v.variants, 0) =~= own);
    }
    while i < p.variants.len()
        invariant
            i <= p.variants@.len(),
            v == p@,
            well_gathered(tagged_views(out@)),
            forall|l: Locale|
                #[trigger] text_in(tagged_views(out@), l) == gathered(
                    Seq::empty(),
                    own + variant_entries(v.variants, i as int),
                    l,
                ),
        decreases p.variants@.len() - i,
    {
        let ghost d = own + variant_entries(v.variants, i as int);
        let ghost w = v.variants[i as int];
        proof {
            assert(w == p.variants@[i as int]@);
        }
        gather_more(&p.variants[i].name, &mut out, Ghost(d));
        gather_more(&p.variants[i].description, &mut out, Ghost(d + w.name));
        gather_more(&p.variants[i].product_number, &mut out, Ghost(d + w.name + w.description));
        gather_more(
            &p.variants[i].tender_text,
            &mut out,
            Ghost(d + w.name + w.description + w.product_number),
        );
        proof {
            assert(d + w.name + w.description + w.product_number + w.tender_text =~= own
                + variant_entries(v.variants, i + 1));
        }
        i += 1;
    }
    out
}

} // verus!
