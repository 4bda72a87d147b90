//! Keys and values in the query string of an address.

use crate::text::{ascii_alphanumeric, chars_of, opt_text, push_text, string_of_range};
use vstd::prelude::*;

verus! {

// ---------------------------------------------------------------------
// Percent encoding
// ---------------------------------------------------------------------

/// A text in percent encoding.
pub uninterp spec fn percent_encoded(s: Seq<char>) -> Seq<char>;

/// What a text in percent encoding stands for; nothing where its bytes
/// are no text.
pub uninterp spec fn percent_decoded(s: Seq<char>) -> Option<Seq<char>>;

/// Whether a character can stand in a text in percent encoding: a letter
/// or digit of ASCII, one of `-`, `_`, `.` and `~`, or the percent sign.
pub open spec fn encoding_char(c: char) -> bool {
    ascii_alphanumeric(c) || c == '-' || c == '_' || c == '.' || c == '~' || c == '%'
}

/// Calls `urlencoding::encode`: every byte but those of letters, digits,
/// `-`, `_`, `.` and `~` is written with a percent sign. Decoding gives
/// the text back.
#[verifier::external_body]
fn encode(s: &str) -> (r: String)
    ensures
        r@ == percent_encoded(s@),
        forall|i: int| 0 <= i < r@.len() ==> encoding_char(#[trigger] r@[i]),
        percent_decoded(r@) == Some(s@),
{
    urlencoding::encode(s).into_owned()
}

/// Whether a percent sign stands in a text.
pub open spec fn has_percent(s: Seq<char>) -> bool {
    exists|i: int| 0 <= i < s.len() && #[trigger] s[i] == '%'
}

/// Calls `urlencoding::decode`. A text without a percent sign stands for
/// itself.
#[verifier::external_body]
fn decode(s: &str) -> (r: Option<String>)
    ensures
        opt_text(r) == percent_decoded(s@),
        !has_percent(s@) ==> opt_text(r) == Some(s@),
{
    match urlencoding::decode(s) {
        Ok(t) => Some(t.into_owned()),
        Err(_) => None,
    }
}

// ---------------------------------------------------------------------
// Writing
// ---------------------------------------------------------------------

/// The views of keys and values.
pub open spec fn pair_views(v: Seq<(String, String)>) -> Seq<(Seq<char>, Seq<char>)> {
    v.map_values(|p: (String, String)| (p.0@, p.1@))
}

/// A key and its value.
pub open spec fn pair_text(p: (Seq<char>, Seq<char>)) -> Seq<char> {
    p.0 + seq!['='] + percent_encoded(p.1)
}

/// Keys and values with ampersands between them.
pub open spec fn pairs_text(ps: Seq<(Seq<char>, Seq<char>)>) -> Seq<char>
    decreases ps.len(),
{
    if ps.len() == 0 {
        Seq::empty()
    } else if ps.len() == 1 {
        pair_text(ps[0])
    } else {
        pairs_text(ps.drop_last()) + seq!['&'] + pair_text(ps.last())
    }
}

/// The query string of keys and values; empty where there are none.
pub open spec fn query_text(ps: Seq<(Seq<char>, Seq<char>)>) -> Seq<char> {
    if ps.len() == 0 {
        Seq::empty()
    } else {
        seq!['?'] + pairs_text(ps)
    }
}

/// Whether keys are plain and stand for themselves.
pub open spec fn keys_stand_for_themselves(ps: Seq<(Seq<char>, Seq<char>)>) -> bool {
    forall|k: int|
        0 <= k < ps.len() ==> plain_key((#[trigger] ps[k]).0) && percent_decoded(ps[k].0) == Some(
            ps[k].0,
        )
}

/// The query string of keys and values. Reading it gives them back.
pub fn encode_filter(pairs: &Vec<(String, String)>) -> (r: String)
    ensures
        r@ == query_text(pair_views(pairs@)),
        keys_stand_for_themselves(pair_views(pairs@)) ==> query_read(r@) == pair_views(pairs@),
{
    let ghost ps = pair_views(pairs@);
    let mut r: String = String::new();
    proof {
        assert(r@ =~= Seq::empty());
    }
    if pairs.len() == 0 {
        proof {
            query_round_trip(ps);
        }
        return r;
    }
    r.push('?');
    let mut i: usize = 0;
    proof {
        assert(ps.take(0) =~= Seq::empty());
        assert(r@ =~= seq!['?'] + pairs_text(ps.take(0)));
    }
    while i < pairs.len()
        invariant
            i <= pairs@.len(),
            ps == pair_views(pairs@),
            r@ == seq!['?'] + pairs_text(ps.take(i as int)),
            forall|k: int|
                0 <= k < i ==> percent_decoded(percent_encoded((#[trigger] ps[k]).1)) == Some(
                    ps[k].1,
                ) && encoded_plainly(percent_encoded(ps[k].1)),
        decreases pairs@.len() - i,
    {
        let ghost before = r@;
        proof {
            assert(ps[i as int] == (pairs@[i as int].0@, pairs@[i as int].1@));
            assert(ps.take(i + 1).drop_last() =~= ps.take(i as int));
            assert(ps.take(i + 1).last() == ps[i as int]);
        }
        if i > 0 {
            r.push('&');
        }
        push_text(&mut r, pairs[i].0.as_str());
        r.push('=');
        let value: String = encode(pairs[i].1.as_str());
        push_text(&mut r, value.as_str());
        proof {
            if i > 0 {
                assert(r@ =~= seq!['?'] + pairs_text(ps.take(i + 1)));
            } else {
                assert(r@ =~= seq!['?'] + pair_text(ps[0]));
                assert(ps.take(1)[0] == ps[0]);
            }
        }
        i += 1;
    }
    proof {
        assert(ps.take(ps.len() as int) =~= ps);
        if keys_stand_for_themselves(ps) {
            assert(readable(ps));
            query_round_trip(ps);
        }
    }
    r
}

// ---------------------------------------------------------------------
// Reading
// ---------------------------------------------------------------------

/// The place of the first `c` in `s`, from `i` on; the end where there
/// is none.
pub open spec fn next_mark(s: Seq<char>, c: char, i: int) -> int
    decreases s.len() - i,
{
    if i < 0 || i >= s.len() || s[i] == c {
        i
    } else {
        next_mark(s, c, i + 1)
    }
}

/// The text without the question marks in front.
pub open spec fn without_marks(s: Seq<char>) -> Seq<char>
    decreases s.len(),
{
    if s.len() > 0 && s[0] == '?' {
        without_marks(s.skip(1))
    } else {
        s
    }
}

/// The key and the value that stand between two ampersands. The value is
/// empty where there is no equals sign. Nothing where the key is empty
/// or either is no text.
pub open spec fn pair_read(seg: Seq<char>) -> Option<(Seq<char>, Seq<char>)> {
    let at = next_mark(seg, '=', 0);
    let value = if at < seg.len() {
        seg.skip(at + 1)
    } else {
        Seq::empty()
    };
    match (percent_decoded(seg.take(at)), percent_decoded(value)) {
        (Some(k), Some(v)) => if k.len() > 0 {
            Some((k, v))
        } else {
            None
        },
        _ => None,
    }
}

/// A list of one, or of none.
pub open spec fn one(p: Option<(Seq<char>, Seq<char>)>) -> Seq<(Seq<char>, Seq<char>)> {
    match p {
        Some(x) => seq![x],
        None => Seq::empty(),
    }
}

/// The keys and values that stand in `s` from `i` on.
pub open spec fn pairs_read(s: Seq<char>, i: int) -> Seq<(Seq<char>, Seq<char>)>
    decreases s.len() + 1 - i,
{
    let end = next_mark(s, '&', i);
    if i < 0 || end < i || end > s.len() {
        Seq::empty()
    } else if end == s.len() {
        one(pair_read(s.subrange(i, end)))
    } else {
        one(pair_read(s.subrange(i, end))) + pairs_read(s, end + 1)
    }
}

/// The keys and values of a query string.
pub open spec fn query_read(s: Seq<char>) -> Seq<(Seq<char>, Seq<char>)> {
    let t = without_marks(s);
    if t.len() == 0 {
        Seq::empty()
    } else {
        pairs_read(t, 0)
    }
}

proof fn mark_is_exact(s: Seq<char>, c: char, i: int)
    requires
        0 <= i <= s.len(),
    ensures
        i <= next_mark(s, c, i) <= s.len(),
        next_mark(s, c, i) < s.len() ==> s[next_mark(s, c, i)] == c,
        forall|j: int| i <= j < next_mark(s, c, i) ==> s[j] != c,
    decreases s.len() - i,
{
    if i < s.len() && s[i] != c {
        mark_is_exact(s, c, i + 1);
    }
}

proof fn mark_at(s: Seq<char>, c: char, i: int, at: int)
    requires
        0 <= i <= at <= s.len(),
        forall|j: int| i <= j < at ==> s[j] != c,
        at < s.len() ==> s[at] == c,
    ensures
        next_mark(s, c, i) == at,
    decreases at - i,
{
    if i < at {
        mark_at(s, c, i + 1, at);
    }
}

/// The place of the first `c` from `i` on.
fn find_mark(cs: &Vec<char>, c: char, i: usize) -> (r: usize)
    requires
        i <= cs@.len(),
    ensures
        r == next_mark(cs@, c, i as int),
        i <= r <= cs@.len(),
{
    let mut j: usize = i;
    while j < cs.len() && cs[j] != c
        invariant
            i <= j <= cs@.len(),
            next_mark(cs@, c, i as int) == next_mark(cs@, c, j as int),
        decreases cs@.len() - j,
    {
        j += 1;
    }
    j
}

/// The key and the value that stand between two ampersands.
fn read_pair(seg: &str) -> (r: Option<(String, String)>)
    ensures
        pair_read(seg@) == (match r {
            Some((k, v)) => Some((k@, v@)),
            None => None,
        }),
{
    let cs: Vec<char> = chars_of(seg);
    let at: usize = find_mark(&cs, '=', 0);
    let key: String = string_of_range(&cs, 0, at);
    proof {
        assert(cs@.subrange(0, at as int) =~= seg@.take(at as int));
    }
    let value: String = if at < cs.len() {
        proof {
            assert(cs@.subrange(at + 1, cs@.len() as int) =~= seg@.skip(at + 1));
        }
        string_of_range(&cs, at + 1, cs.len())
    } else {
        let e: String = String::new();
        proof {
            assert(e@ =~= Seq::empty());
        }
        e
    };
    match (decode(key.as_str()), decode(value.as_str())) {
        (Some(k), Some(v)) => {
            if k.as_str().is_empty() {
                None
            } else {
                Some((k, v))
            }
        },
        _ => None,
    }
}

/// The keys and values of a query string. What cannot be read is passed
/// over.
pub fn parse_query_string(qs: &str) -> (r: Vec<(String, String)>)
    ensures
        pair_views(r@) == query_read(qs@),
{
    let all: Vec<char> = chars_of(qs);
    let mut from: usize = 0;
    proof {
        assert(all@.skip(0) =~= qs@);
    }
    while from < all.len() && all[from] == '?'
        invariant
            from <= all@.len(),
            without_marks(all@.skip(from as int)) == without_marks(qs@),
        decreases all@.len() - from,
    {
        proof {
            assert(all@.skip(from as int).skip(1) =~= all@.skip(from + 1));
        }
        from += 1;
    }
    let text: String = string_of_range(&all, from, all.len());
    proof {
        assert(all@.subrange(from as int, all@.len() as int) =~= all@.skip(from as int));
        assert(text@ == without_marks(qs@));
    }
    let mut r: Vec<(String, String)> = Vec::new();
    proof {
        assert(pair_views(r@) =~= Seq::empty());
    }
    if text.as_str().is_empty() {
        return r;
    }
    let cs: Vec<char> = chars_of(text.as_str());
    let ghost whole = pairs_read(cs@, 0);
    let mut i: usize = 0;
    let mut over: bool = false;
    proof {
        assert(pair_views(r@) + whole =~= whole);
    }
    while !over
        invariant
            i <= cs@.len(),
            !over ==> pair_views(r@) + pairs_read(cs@, i as int) == whole,
            over ==> pair_views(r@) == whole,
        decreases cs@.len() - i, (if over { 0int } else { 1int }),
    {
        let end: usize = find_mark(&cs, '&', i);
        let seg: String = string_of_range(&cs, i, end);
        let ghost before = pair_views(r@);
        match read_pair(seg.as_str()) {
            Some((k, v)) => {
                let ghost p = (k@, v@);
                r.push((k, v));
                proof {
                    assert(pair_views(r@) =~= before + one(Some(p)));
                }
            },
            None => {
                proof {
                    assert(pair_views(r@) =~= before + one(None));
                }
            },
        }
        if end >= cs.len() {
            over = true;
        } else {
            proof {
                assert(before + (one(pair_read(seg@)) + pairs_read(cs@, end + 1)) =~= (before + one(
                    pair_read(seg@),
                )) + pairs_read(cs@, end + 1));
            }
            i = end + 1;
        }
    }
    r
}

// ---------------------------------------------------------------------
// Writing and reading
// ---------------------------------------------------------------------

/// Whether a key needs no encoding: letters, digits and underscores, one
/// at least.
pub open spec fn plain_key(k: Seq<char>) -> bool {
    k.len() > 0 && forall|i: int|
        0 <= i < k.len() ==> ascii_alphanumeric(#[trigger] k[i]) || k[i] == '_'
}

/// Whether keys are plain, and their values can be read back.
pub open spec fn readable(ps: Seq<(Seq<char>, Seq<char>)>) -> bool {
    forall|k: int|
        0 <= k < ps.len() ==> plain_key((#[trigger] ps[k]).0) && percent_decoded(ps[k].0) == Some(
            ps[k].0,
        ) && percent_decoded(percent_encoded(ps[k].1)) == Some(ps[k].1) && encoded_plainly(
            percent_encoded(ps[k].1),
        )
}

/// Whether a text is of the characters of percent encoding.
pub open spec fn encoded_plainly(s: Seq<char>) -> bool {
    forall|i: int| 0 <= i < s.len() ==> encoding_char(#[trigger] s[i])
}

/// A key and a value are read back.
proof fn pair_round_trip(p: (Seq<char>, Seq<char>))
    requires
        readable(seq![p]),
    ensures
        pair_read(pair_text(p)) == Some(p),
        forall|i: int| 0 <= i < pair_text(p).len() ==> pair_text(p)[i] != '&',
        pair_text(p).len() > 0,
        pair_text(p)[0] != '?',
{
    let one_pair = seq![p];
    assert(one_pair[0] == p);
    let t = pair_text(p);
    let at = p.0.len() as int;
    assert forall|i: int| 0 <= i < t.len() implies t[i] != '&' && (i < at ==> t[i] != '=' && t[i]
        != '?') by {
        if i < at {
            assert(t[i] == p.0[i]);
        } else if i > at {
            assert(t[i] == percent_encoded(p.1)[i - at - 1]);
        }
    }
    mark_at(t, '=', 0, at);
    assert(t.take(at) =~= p.0);
    assert(t.skip(at + 1) =~= percent_encoded(p.1));
}

/// What follows a prefix is read as if it stood alone.
proof fn read_shifted(a: Seq<char>, s: Seq<char>, i: int)
    requires
        0 <= i <= s.len(),
    ensures
        pairs_read(a + s, a.len() + i) == pairs_read(s, i),
    decreases s.len() + 1 - i,
{
    let t = a + s;
    mark_is_exact(s, '&', i);
    let end = next_mark(s, '&', i);
    assert forall|j: int| a.len() + i <= j < a.len() + end implies t[j] != '&' by {
        assert(t[j] == s[j - a.len()]);
    }
    mark_at(t, '&', a.len() + i, a.len() + end);
    assert(t.subrange(a.len() + i, a.len() + end) =~= s.subrange(i, end));
    if end < s.len() {
        read_shifted(a, s, end + 1);
    }
}

/// Keys and values in front of one more are read before it.
proof fn read_joined(ps: Seq<(Seq<char>, Seq<char>)>)
    requires
        ps.len() > 0,
        readable(ps),
    ensures
        pairs_read(pairs_text(ps), 0) == ps,
        pairs_text(ps).len() > 0,
        pairs_text(ps)[0] != '?',
    decreases ps.len(),
{
    let last = ps.last();
    assert(readable(seq![last])) by {
        assert(ps[ps.len() - 1] == last);
    }
    pair_round_trip(last);
    if ps.len() == 1 {
        let t = pair_text(last);
        assert(ps[0] == last);
        mark_at(t, '&', 0, t.len() as int);
        assert(t.subrange(0, t.len() as int) =~= t);
        assert(pairs_read(t, 0) =~= seq![last]);
        assert(ps =~= seq![last]);
    } else {
        let front = ps.drop_last();
        assert(readable(front)) by {
            assert forall|k: int| 0 <= k < front.len() implies plain_key((#[trigger] front[k]).0)
                && percent_decoded(front[k].0) == Some(front[k].0) && percent_decoded(
                percent_encoded(front[k].1),
            ) == Some(front[k].1) && encoded_plainly(percent_encoded(front[k].1)) by {
                assert(ps[k] == front[k]);
            }
        }
        read_joined(front);
        let a = pairs_text(front);
        let b = pair_text(last);
        let t = a + seq!['&'] + b;
        read_behind(a, b, 0);
        mark_at(b, '&', 0, b.len() as int);
        assert(b.subrange(0, b.len() as int) =~= b);
        assert(pairs_read(b, 0) =~= seq![last]);
        assert(front + seq![last] =~= ps);
        assert(t[0] == a[0]);
    }
}

/// Two texts with an ampersand between them are read one after the
/// other.
proof fn read_behind(a: Seq<char>, b: Seq<char>, i: int)
    requires
        0 <= i <= a.len(),
    ensures
        pairs_read(a + seq!['&'] + b, i) == pairs_read(a, i) + pairs_read(b, 0),
    decreases a.len() + 1 - i,
{
    let t = a + seq!['&'] + b;
    mark_is_exact(a, '&', i);
    let end = next_mark(a, '&', i);
    assert forall|j: int| i <= j < end implies t[j] != '&' by {
        assert(t[j] == a[j]);
    }
    assert(t[end] == '&') by {
        if end < a.len() {
            assert(t[end] == a[end]);
        }
    }
    mark_at(t, '&', i, end);
    assert(t.subrange(i, end) =~= a.subrange(i, end));
    if end < a.len() {
        read_behind(a, b, end + 1);
        assert(one(pair_read(a.subrange(i, end))) + (pairs_read(a, end + 1) + pairs_read(b, 0))
            =~= (one(pair_read(a.subrange(i, end))) + pairs_read(a, end + 1)) + pairs_read(b, 0));
    } else {
        let p = a + seq!['&'];
        assert(t =~= p + b);
        read_shifted(p, b, 0);
    }
}

/// A query string gives back the keys and values that it was made from,
/// where the keys are plain.
pub proof fn query_round_trip(ps: Seq<(Seq<char>, Seq<char>)>)
    requires
        readable(ps),
    ensures
        query_read(query_text(ps)) == ps,
{
    if ps.len() == 0 {
        assert(query_read(query_text(ps)) =~= ps);
    } else {
        read_joined(ps);
        let t = query_text(ps);
        assert(t.skip(1) =~= pairs_text(ps));
        assert(without_marks(t) == pairs_text(ps)) by {
            assert(t[0] == '?');
            assert(without_marks(t) == without_marks(t.skip(1)));
        }
    }
}

} // verus!
