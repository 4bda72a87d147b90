//! Lists kept in strictly rising order, as sets.

use crate::doc::{locale_lt, tagged_views, Locale};
use crate::text::{
    owned, same_text, text_before, text_lt, text_lt_asymmetric, text_lt_irreflexive, text_lt_total,
    text_lt_transitive, texts,
};
use vstd::prelude::*;

verus! {

/// Whether the texts rise strictly.
pub open spec fn rising_texts(s: Seq<Seq<char>>) -> bool {
    forall|i: int, j: int| 0 <= i < j < s.len() ==> text_lt(#[trigger] s[i], #[trigger] s[j])
}

/// The order of language-tagged texts: by language, then by text.
pub open spec fn tagged_lt(a: (Locale, Seq<char>), b: (Locale, Seq<char>)) -> bool {
    locale_lt(a.0, b.0) || (a.0 == b.0 && text_lt(a.1, b.1))
}

/// Whether the tagged texts rise strictly.
pub open spec fn rising_tagged(s: Seq<(Locale, Seq<char>)>) -> bool {
    forall|i: int, j: int| 0 <= i < j < s.len() ==> tagged_lt(#[trigger] s[i], #[trigger] s[j])
}

/// Two rising lists of the same texts are the same list.
pub proof fn rising_texts_unique(a: Seq<Seq<char>>, b: Seq<Seq<char>>)
    requires
        rising_texts(a),
        rising_texts(b),
        forall|x: Seq<char>| #[trigger] a.contains(x) <==> b.contains(x),
    ensures
        a == b,
    decreases a.len(),
{
    if a.len() == 0 {
        if b.len() > 0 {
            assert(b.contains(b[0]));
            assert(a.contains(b[0]));
        }
        assert(a =~= b);
    } else {
        assert(a.contains(a[a.len() - 1]));
        assert(b.contains(a[a.len() - 1]));
        let x = a[a.len() - 1];
        let y = b[b.len() - 1];
        assert(b.contains(y));
        assert(a.contains(y));
        let i = choose|i: int| 0 <= i < b.len() && b[i] == x;
        let j = choose|j: int| 0 <= j < a.len() && a[j] == y;
        if x != y {
            assert(text_lt(b[i], b[b.len() - 1]));
            assert(text_lt(a[j], a[a.len() - 1]));
            text_lt_asymmetric(x, y);
        }
        let p = a.drop_last();
        let q = b.drop_last();
        assert forall|k: int, l: int| 0 <= k < l < p.len() implies text_lt(
            #[trigger] p[k],
            #[trigger] p[l],
        ) by {
            assert(text_lt(a[k], a[l]));
        }
        assert forall|k: int, l: int| 0 <= k < l < q.len() implies text_lt(
            #[trigger] q[k],
            #[trigger] q[l],
        ) by {
            assert(text_lt(b[k], b[l]));
        }
        assert forall|z: Seq<char>| #[trigger] p.contains(z) <==> q.contains(z) by {
            if p.contains(z) {
                let k = choose|k: int| 0 <= k < p.len() && p[k] == z;
                assert(a[k] == z);
                assert(text_lt(a[k], a[a.len() - 1]));
                text_lt_irreflexive(x);
                assert(a.contains(z));
                let l = choose|l: int| 0 <= l < b.len() && b[l] == z;
                assert(q[l] == z);
            }
            if q.contains(z) {
                let k = choose|k: int| 0 <= k < q.len() && q[k] == z;
                assert(b[k] == z);
                assert(text_lt(b[k], b[b.len() - 1]));
                text_lt_irreflexive(y);
                assert(b.contains(z));
                assert(a.contains(z));
                let l = choose|l: int| 0 <= l < a.len() && a[l] == z;
                assert(p[l] == z);
            }
        }
        rising_texts_unique(p, q);
        assert(a =~= p.push(x));
        assert(b =~= q.push(y));
    }
}

/// Adds a text to a rising list, at its place, unless it is there.
pub fn insert_text(list: &mut Vec<String>, s: &str)
    requires
        rising_texts(texts(old(list)@)),
    ensures
        rising_texts(texts(final(list)@)),
        forall|x: Seq<char>| #[trigger]
            texts(final(list)@).contains(x) <==> texts(old(list)@).contains(x) || x == s@,
{
    let ghost before = texts(list@);
    let mut i: usize = 0;
    while i < list.len() && text_before(list[i].as_str(), s)
        invariant
            i <= list@.len(),
            texts(list@) == before,
            forall|j: int| 0 <= j < i ==> text_lt(#[trigger] before[j], s@),
        decreases list@.len() - i,
    {
        proof {
            assert(before[i as int] == list@[i as int]@);
        }
        i += 1;
    }
    if i < list.len() && same_text(list[i].as_str(), s) {
        proof {
            assert(before[i as int] == s@);
        }
        return;
    }
    let ghost at = i as int;
    list.insert(i, owned(s));
    proof {
        let after = texts(list@);
        assert(after =~= before.insert(at, s@));
        if at < before.len() {
            text_lt_total(before[at], s@);
        }
        assert forall|k: int, l: int| 0 <= k < l < after.len() implies text_lt(
            #[trigger] after[k],
            #[trigger] after[l],
        ) by {
            if l < at {
                assert(text_lt(before[k], before[l]));
            } else if l == at {
                assert(text_lt(before[k], s@));
            } else if k == at {
                if l - 1 > at {
                    assert(text_lt(before[at], before[l - 1]));
                    text_lt_transitive(s@, before[at], before[l - 1]);
                }
            } else {
                let m = if k < at {
                    k
                } else {
                    k - 1
                };
                assert(text_lt(before[m], before[l - 1]));
            }
        }
        assert forall|x: Seq<char>| #[trigger] after.contains(x) <==> before.contains(x) || x
            == s@ by {
            if before.contains(x) {
                let k = choose|k: int| 0 <= k < before.len() && before[k] == x;
                if k < at {
                    assert(after[k] == x);
                } else {
                    assert(after[k + 1] == x);
                }
            }
            if x == s@ {
                assert(after[at] == x);
            }
            if after.contains(x) {
                let k = choose|k: int| 0 <= k < after.len() && after[k] == x;
                if k < at {
                    assert(before[k] == x);
                } else if k > at {
                    assert(before[k - 1] == x);
                }
            }
        }
    }
}

/// The order of language-tagged texts is transitive.
proof fn tagged_transitive(
    a: (Locale, Seq<char>),
    b: (Locale, Seq<char>),
    c: (Locale, Seq<char>),
)
    requires
        tagged_lt(a, b),
        tagged_lt(b, c),
    ensures
        tagged_lt(a, c),
{
    if a.0 == b.0 && b.0 == c.0 {
        text_lt_transitive(a.1, b.1, c.1);
    }
}

/// Of two different tagged texts one stands before the other.
proof fn tagged_total(a: (Locale, Seq<char>), b: (Locale, Seq<char>))
    ensures
        tagged_lt(a, b) || tagged_lt(b, a) || a == b,
{
    text_lt_total(a.1, b.1);
}

/// Whether `a` stands before `b` in the order of language codes.
pub fn locale_before(a: Locale, b: Locale) -> (r: bool)
    ensures
        r == locale_lt(a, b),
{
    a.0 < b.0 || (a.0 == b.0 && a.1 < b.1)
}

/// Adds a tagged text to a rising list, at its place, unless it is
/// there.
pub fn insert_tagged(list: &mut Vec<(Locale, String)>, l: Locale, s: &str)
    requires
        rising_tagged(tagged_views(old(list)@)),
    ensures
        rising_tagged(tagged_views(final(list)@)),
        forall|x: (Locale, Seq<char>)| #[trigger]
            tagged_views(final(list)@).contains(x) <==> tagged_views(old(list)@).contains(x) || x
                == (l, s@),
{
    let ghost before = tagged_views(list@);
    let ghost new = (l, s@);
    let mut i: usize = 0;
    while i < list.len() && (locale_before(list[i].0, l) || (list[i].0 == l && text_before(
        list[i].1.as_str(),
        s,
    )))
        invariant
            i <= list@.len(),
            tagged_views(list@) == before,
            new == (l, s@),
            forall|j: int| 0 <= j < i ==> tagged_lt(#[trigger] before[j], new),
        decreases list@.len() - i,
    {
        proof {
            assert(before[i as int] == (list@[i as int].0, list@[i as int].1@));
        }
        i += 1;
    }
    proof {
        if i < list@.len() {
            assert(before[i as int] == (list@[i as int].0, list@[i as int].1@));
        }
    }
    if i < list.len() && list[i].0 == l && same_text(list[i].1.as_str(), s) {
        proof {
            assert(before[i as int] == new);
        }
        return;
    }
    let ghost at = i as int;
    list.insert(i, (l, owned(s)));
    proof {
        let after = tagged_views(list@);
        assert(after =~= before.insert(at, new));
        if at < before.len() {
            tagged_total(before[at], new);
        }
        assert forall|k: int, m: int| 0 <= k < m < after.len() implies tagged_lt(
            #[trigger] after[k],
            #[trigger] after[m],
        ) by {
            if m < at {
                assert(tagged_lt(before[k], before[m]));
            } else if m == at {
                assert(tagged_lt(before[k], new));
            } else if k == at {
                if m - 1 > at {
                    assert(tagged_lt(before[at], before[m - 1]));
                    tagged_transitive(new, before[at], before[m - 1]);
                }
            } else {
                let n = if k < at {
                    k
                } else {
                    k - 1
                };
                assert(tagged_lt(before[n], before[m - 1]));
            }
        }
        assert forall|x: (Locale, Seq<char>)| #[trigger] after.contains(x) <==> before.contains(x)
            || x == new by {
            if before.contains(x) {
                let k = choose|k: int| 0 <= k < before.len() && before[k] == x;
                if k < at {
                    assert(after[k] == x);
                } else {
                    assert(after[k + 1] == x);
                }
            }
            if x == new {
                assert(after[at] == x);
            }
            if after.contains(x) {
                let k = choose|k: int| 0 <= k < after.len() && after[k] == x;
                if k < at {
                    assert(before[k] == x);
                } else if k > at {
                    assert(before[k - 1] == x);
                }
            }
        }
    }
}

} // verus!
