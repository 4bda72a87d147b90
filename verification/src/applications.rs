//! The application taxonomy: its levels, and the words by which names
//! mention an application.
//!
//! An application is written as up to three levels set apart by colons,
//! such as `Interior: Office: Office Desks`.

use crate::tables::{axis_values, element_of, str_texts, value_of, value_text, Axis};
use crate::text::{
    chars_of, lowercase, owned, same_text, string_of_range, texts, trim, trimmed, unicode_lower,
};
use crate::words::{split_words, words};
use vstd::prelude::*;

verus! {

// ---------------------------------------------------------------------
// Levels
// ---------------------------------------------------------------------

/// The position of the first colon at or behind `i`, or the length.
pub open spec fn colon_from(s: Seq<char>, i: int) -> int
    decreases s.len() - i,
{
    if i < 0 || i >= s.len() {
        s.len() as int
    } else if s[i] == ':' {
        i
    } else {
        colon_from(s, i + 1)
    }
}

/// The level that begins at `i`, without white space at its ends.
pub open spec fn level_from(s: Seq<char>, i: int) -> Seq<char> {
    trim(s.subrange(i, colon_from(s, i)))
}

/// The first level of an application.
pub open spec fn top_level(s: Seq<char>) -> Seq<char> {
    level_from(s, 0)
}

/// The second level of an application, where it has one.
pub open spec fn mid_level(s: Seq<char>) -> Option<Seq<char>> {
    if colon_from(s, 0) < s.len() {
        Some(level_from(s, colon_from(s, 0) + 1))
    } else {
        None
    }
}

/// Where the last level that begins at or behind `i` begins.
pub open spec fn leaf_from(s: Seq<char>, i: int) -> int
    decreases s.len() - i,
{
    if i >= 0 && colon_from(s, i) < s.len() && colon_from(s, i) >= i {
        leaf_from(s, colon_from(s, i) + 1)
    } else {
        i
    }
}

/// The last level of an application.
pub open spec fn leaf_level(s: Seq<char>) -> Seq<char> {
    trim(s.skip(leaf_from(s, 0)))
}

proof fn colon_bounded(s: Seq<char>, i: int)
    requires
        0 <= i <= s.len(),
    ensures
        i <= colon_from(s, i) <= s.len(),
        colon_from(s, i) < s.len() ==> s[colon_from(s, i)] == ':',
    decreases s.len() - i,
{
    if i < s.len() && s[i] != ':' {
        colon_bounded(s, i + 1);
    }
}

/// The position of the first colon at or behind `i`, or the length.
fn find_colon(cs: &Vec<char>, i: usize) -> (r: usize)
    requires
        i <= cs@.len(),
    ensures
        r == colon_from(cs@, i as int),
        i <= r <= cs@.len(),
{
    let mut k: usize = i;
    proof {
        colon_bounded(cs@, i as int);
    }
    while k < cs.len() && cs[k] != ':'
        invariant
            i <= k <= cs@.len(),
            colon_from(cs@, i as int) == colon_from(cs@, k as int),
        decreases cs@.len() - k,
    {
        k += 1;
    }
    k
}

/// The first level of an application.
pub fn top_of(s: &str) -> (r: String)
    ensures
        r@ == top_level(s@),
{
    let cs: Vec<char> = chars_of(s);
    let end: usize = find_colon(&cs, 0);
    trimmed(string_of_range(&cs, 0, end).as_str())
}

/// The second level of an application, where it has one.
pub fn mid_of(s: &str) -> (r: Option<String>)
    ensures
        crate::text::opt_text(r) == mid_level(s@),
{
    let cs: Vec<char> = chars_of(s);
    let first: usize = find_colon(&cs, 0);
    if first < cs.len() {
        let end: usize = find_colon(&cs, first + 1);
        Some(trimmed(string_of_range(&cs, first + 1, end).as_str()))
    } else {
        None
    }
}

/// The last level of an application.
pub fn leaf_of(s: &str) -> (r: String)
    ensures
        r@ == leaf_level(s@),
{
    let cs: Vec<char> = chars_of(s);
    let mut i: usize = 0;
    loop
        invariant
            i <= cs@.len(),
            cs@ == s@,
            leaf_from(s@, 0) == leaf_from(s@, i as int),
        decreases cs@.len() - i,
    {
        let c: usize = find_colon(&cs, i);
        if c >= cs.len() {
            proof {
                assert(s@.subrange(i as int, s@.len() as int) =~= s@.skip(i as int));
            }
            return trimmed(string_of_range(&cs, i, cs.len()).as_str());
        }
        i = c + 1;
    }
}

/// The first level of the application with the given id.
pub fn application_top(id: u8) -> (r: Option<String>)
    ensures
        crate::text::opt_text(r) == (match value_text(Axis::Application, id) {
            Some(s) => Some(top_level(s)),
            None => None,
        }),
{
    match value_of(Axis::Application, id) {
        Some(s) => Some(top_of(s)),
        None => None,
    }
}

/// The second level of the application with the given id.
pub fn application_mid(id: u8) -> (r: Option<String>)
    ensures
        crate::text::opt_text(r) == (match value_text(Axis::Application, id) {
            Some(s) => mid_level(s),
            None => None,
        }),
{
    match value_of(Axis::Application, id) {
        Some(s) => mid_of(s),
        None => None,
    }
}

// ---------------------------------------------------------------------
// Probes
// ---------------------------------------------------------------------

/// Words too common to tell an application.
pub open spec fn stopwords() -> Seq<Seq<char>> {
    seq![
        "area"@,
        "areas"@,
        "exterior"@,
        "facilities"@,
        "general"@,
        "indoor"@,
        "interior"@,
        "lighting"@,
        "other"@,
        "outdoor"@,
        "place"@,
        "places"@,
        "room"@,
        "rooms"@,
        "space"@,
        "spaces"@,
        "station"@,
        "stations"@,
        "zone"@,
        "zones"@,
    ]
}

/// Whether a text can tell an application: four characters or more, and
/// no stopword.
pub open spec fn telling(s: Seq<char>) -> bool {
    s.len() >= 4 && !stopwords().contains(s)
}

/// A word without the plural `s` at its end.
pub open spec fn singular(s: Seq<char>) -> Seq<char> {
    if s.len() >= 2 && s.last() == 's' && s[s.len() - 2] != 's' {
        s.drop_last()
    } else {
        s
    }
}

/// A probe for an id: a text whose occurrence in a name mentions it.
pub open spec fn probe(s: Seq<char>, id: u8) -> Seq<(Seq<char>, u8)> {
    if telling(s) {
        seq![(s, id)]
    } else {
        Seq::empty()
    }
}

/// The probes of a text: itself and, where that differs, its singular.
pub open spec fn both_probes(s: Seq<char>, id: u8) -> Seq<(Seq<char>, u8)> {
    if singular(s) == s {
        probe(s, id)
    } else {
        probe(s, id) + probe(singular(s), id)
    }
}

/// The probes of the first `n` words.
pub open spec fn word_probes(ws: Seq<Seq<char>>, id: u8, n: int) -> Seq<(Seq<char>, u8)>
    decreases n,
{
    if n <= 0 {
        Seq::empty()
    } else {
        word_probes(ws, id, n - 1) + both_probes(ws[n - 1], id)
    }
}

/// The probes of one application: those of its last level, lowered, and
/// where that has several words, those of its words.
pub open spec fn leaf_probes(value: Seq<char>, id: u8) -> Seq<(Seq<char>, u8)> {
    let leaf = unicode_lower(leaf_level(value));
    let ws = words(leaf);
    both_probes(leaf, id) + if ws.len() > 1 {
        word_probes(ws, id, ws.len() as int)
    } else {
        Seq::empty()
    }
}

/// The probes of the first `n` applications.
pub open spec fn axis_probes(values: Seq<Seq<char>>, n: int) -> Seq<(Seq<char>, u8)>
    decreases n,
{
    if n <= 0 {
        Seq::empty()
    } else {
        axis_probes(values, n - 1) + leaf_probes(values[n - 1], (n - 1) as u8)
    }
}

/// `s` with `x` behind the last probe that is not shorter.
pub open spec fn placed_by_length(s: Seq<(Seq<char>, u8)>, x: (Seq<char>, u8)) -> Seq<
    (Seq<char>, u8),
>
    decreases s.len(),
{
    if s.len() == 0 || s.last().0.len() >= x.0.len() {
        s.push(x)
    } else {
        placed_by_length(s.drop_last(), x).push(s.last())
    }
}

/// Probes from the longest to the shortest; those of the same length
/// keep their order.
pub open spec fn longest_first(s: Seq<(Seq<char>, u8)>) -> Seq<(Seq<char>, u8)>
    decreases s.len(),
{
    if s.len() == 0 {
        Seq::empty()
    } else {
        placed_by_length(longest_first(s.drop_last()), s.last())
    }
}

/// The probes of all applications, from the longest to the shortest.
pub open spec fn application_probes() -> Seq<(Seq<char>, u8)> {
    let values = axis_values(Axis::Application);
    longest_first(axis_probes(values, values.len() as int))
}

/// The views of probes.
pub open spec fn probe_views(v: Seq<(String, u8)>) -> Seq<(Seq<char>, u8)> {
    v.map_values(|p: (String, u8)| (p.0@, p.1))
}

proof fn placed_keeps_telling(s: Seq<(Seq<char>, u8)>, x: (Seq<char>, u8))
    requires
        forall|i: int| 0 <= i < s.len() ==> telling((#[trigger] s[i]).0),
        telling(x.0),
    ensures
        forall|i: int|
            0 <= i < placed_by_length(s, x).len() ==> telling(
                (#[trigger] placed_by_length(s, x)[i]).0,
            ),
    decreases s.len(),
{
    if s.len() > 0 && s.last().0.len() < x.0.len() {
        assert forall|i: int| 0 <= i < s.drop_last().len() implies telling(
            (#[trigger] s.drop_last()[i]).0,
        ) by {
            assert(s.drop_last()[i] == s[i]);
        }
        placed_keeps_telling(s.drop_last(), x);
        let front = placed_by_length(s.drop_last(), x);
        assert forall|i: int| 0 <= i < placed_by_length(s, x).len() implies telling(
            (#[trigger] placed_by_length(s, x)[i]).0,
        ) by {
            if i < front.len() {
                assert(placed_by_length(s, x)[i] == front[i]);
            } else {
                assert(placed_by_length(s, x)[i] == s[s.len() - 1]);
            }
        }
    }
}

proof fn longest_first_keeps_telling(s: Seq<(Seq<char>, u8)>)
    requires
        forall|i: int| 0 <= i < s.len() ==> telling((#[trigger] s[i]).0),
    ensures
        forall|i: int| 0 <= i < longest_first(s).len() ==> telling((#[trigger] longest_first(s)[i]).0),
    decreases s.len(),
{
    if s.len() > 0 {
        assert forall|i: int| 0 <= i < s.drop_last().len() implies telling(
            (#[trigger] s.drop_last()[i]).0,
        ) by {
            assert(s.drop_last()[i] == s[i]);
        }
        longest_first_keeps_telling(s.drop_last());
        assert(telling(s[s.len() - 1].0));
        placed_keeps_telling(longest_first(s.drop_last()), s.last());
    }
}

proof fn word_probes_telling(ws: Seq<Seq<char>>, id: u8, n: int)
    ensures
        forall|i: int| 0 <= i < word_probes(ws, id, n).len() ==> telling((#[trigger] word_probes(ws, id, n)[i]).0),
    decreases n,
{
    if n > 0 {
        word_probes_telling(ws, id, n - 1);
        let front = word_probes(ws, id, n - 1);
        let more = both_probes(ws[n - 1], id);
        assert forall|i: int| 0 <= i < word_probes(ws, id, n).len() implies telling(
            (#[trigger] word_probes(ws, id, n)[i]).0,
        ) by {
            if i >= front.len() {
                assert(word_probes(ws, id, n)[i] == more[i - front.len()]);
            } else {
                assert(word_probes(ws, id, n)[i] == front[i]);
            }
        }
    }
}

proof fn axis_probes_telling(values: Seq<Seq<char>>, n: int)
    ensures
        forall|i: int|
            0 <= i < axis_probes(values, n).len() ==> telling((#[trigger] axis_probes(values, n)[i]).0),
    decreases n,
{
    if n > 0 {
        axis_probes_telling(values, n - 1);
        let front = axis_probes(values, n - 1);
        let leaf = unicode_lower(leaf_level(values[n - 1]));
        let id = (n - 1) as u8;
        let ws = words(leaf);
        word_probes_telling(ws, id, ws.len() as int);
        let own = both_probes(leaf, id);
        let rest = word_probes(ws, id, ws.len() as int);
        let more = leaf_probes(values[n - 1], id);
        assert forall|i: int| 0 <= i < axis_probes(values, n).len() implies telling(
            (#[trigger] axis_probes(values, n)[i]).0,
        ) by {
            if i < front.len() {
                assert(axis_probes(values, n)[i] == front[i]);
            } else {
                let k = i - front.len();
                assert(axis_probes(values, n)[i] == more[k]);
                if k < own.len() {
                    assert(more[k] == own[k]);
                } else {
                    assert(more[k] == rest[k - own.len()]);
                }
            }
        }
    }
}

/// Every probe has four characters or more and is no stopword.
pub proof fn probes_tell(i: int)
    requires
        0 <= i < application_probes().len(),
    ensures
        telling(application_probes()[i].0),
{
    let values = axis_values(Axis::Application);
    axis_probes_telling(values, values.len() as int);
    longest_first_keeps_telling(axis_probes(values, values.len() as int));
}

/// The levels of an application are the parts between its colons, without
/// the white space around them.
#[verifier::spinoff_prover]
pub proof fn levels_stand_between_colons(a: Seq<char>, b: Seq<char>, c: Seq<char>)
    requires
        !a.contains(':'),
        !b.contains(':'),
        !c.contains(':'),
    ensures
        top_level(a) == trim(a) && mid_level(a) is None && leaf_level(a) == trim(a),
        ({
            let s = a + seq![':'] + b;
            &&& top_level(s) == trim(a)
            &&& mid_level(s) == Some(trim(b))
            &&& leaf_level(s) == trim(b)
        }),
        ({
            let s = a + seq![':'] + b + seq![':'] + c;
            &&& top_level(s) == trim(a)
            &&& mid_level(s) == Some(trim(b))
            &&& leaf_level(s) == trim(c)
        }),
{
    let n = a.len() as int;
    colon_missing(a, 0);
    assert(a.subrange(0, n) =~= a);
    assert(a.skip(0) =~= a);
    let s = a + seq![':'] + b;
    assert forall|i: int| 0 <= i < n implies s[i] != ':' by {
        assert(a.contains(a[i]));
    }
    assert(s[n] == ':');
    colon_at(s, 0, n);
    assert forall|i: int| n + 1 <= i < s.len() implies s[i] != ':' by {
        assert(s[i] == b[i - n - 1]);
        assert(b.contains(b[i - n - 1]));
    }
    colon_missing_behind(s, n + 1);
    assert(s.subrange(0, n) =~= a);
    assert(s.subrange(n + 1, s.len() as int) =~= b);
    assert(s.skip(n + 1) =~= b);
    assert(leaf_from(s, n + 1) == n + 1);
    let t = a + seq![':'] + b + seq![':'] + c;
    let m = n + 1 + b.len();
    assert forall|i: int| 0 <= i < n implies t[i] != ':' by {
        assert(a.contains(a[i]));
    }
    assert(t[n] == ':');
    colon_at(t, 0, n);
    assert forall|i: int| n + 1 <= i < m implies t[i] != ':' by {
        assert(t[i] == b[i - n - 1]);
        assert(b.contains(b[i - n - 1]));
    }
    assert(t[m] == ':');
    colon_at(t, n + 1, m);
    assert forall|i: int| m + 1 <= i < t.len() implies t[i] != ':' by {
        assert(t[i] == c[i - m - 1]);
        assert(c.contains(c[i - m - 1]));
    }
    colon_missing_behind(t, m + 1);
    assert(t.subrange(0, n) =~= a);
    assert(t.subrange(n + 1, m) =~= b);
    assert(t.skip(m + 1) =~= c);
    assert(leaf_from(t, m + 1) == m + 1);
    assert(leaf_from(t, n + 1) == m + 1);
}

proof fn colon_missing(s: Seq<char>, i: int)
    requires
        0 <= i <= s.len(),
        !s.contains(':'),
    ensures
        colon_from(s, i) == s.len(),
    decreases s.len() - i,
{
    if i < s.len() {
        assert(s.contains(s[i]));
        colon_missing(s, i + 1);
    }
}

proof fn colon_missing_behind(s: Seq<char>, i: int)
    requires
        0 <= i <= s.len(),
        forall|k: int| i <= k < s.len() ==> s[k] != ':',
    ensures
        colon_from(s, i) == s.len(),
    decreases s.len() - i,
{
    if i < s.len() {
        colon_missing_behind(s, i + 1);
    }
}

proof fn colon_at(s: Seq<char>, i: int, k: int)
    requires
        0 <= i <= k < s.len(),
        s[k] == ':',
        forall|j: int| i <= j < k ==> s[j] != ':',
    ensures
        colon_from(s, i) == k,
    decreases k - i,
{
    if i < k {
        colon_at(s, i + 1, k);
    }
}

/// Words of fewer than four characters and words that many applications
/// share tell nothing; every other word tells.
pub proof fn common_words_tell_nothing(s: Seq<char>)
    ensures
        s.len() < 4 ==> !telling(s),
        !telling("area"@),
        !telling("areas"@),
        !telling("exterior"@),
        !telling("facilities"@),
        !telling("general"@),
        !telling("indoor"@),
        !telling("interior"@),
        !telling("lighting"@),
        !telling("other"@),
        !telling("outdoor"@),
        !telling("place"@),
        !telling("places"@),
        !telling("room"@),
        !telling("rooms"@),
        !telling("space"@),
        !telling("spaces"@),
        !telling("station"@),
        !telling("stations"@),
        !telling("zone"@),
        !telling("zones"@),
        s.len() >= 4 && (s != "area"@ && s != "areas"@ && s != "exterior"@ && s != "facilities"@ && s != "general"@ && s != "indoor"@ && s != "interior"@ && s != "lighting"@ && s != "other"@ && s != "outdoor"@ && s != "place"@ && s != "places"@ && s != "room"@ && s != "rooms"@ && s != "space"@ && s != "spaces"@ && s != "station"@ && s != "stations"@ && s != "zone"@ && s != "zones"@) ==> telling(s),
{
    let w = stopwords();
    assert(w[0] == "area"@);
    assert(w[1] == "areas"@);
    assert(w[2] == "exterior"@);
    assert(w[3] == "facilities"@);
    assert(w[4] == "general"@);
    assert(w[5] == "indoor"@);
    assert(w[6] == "interior"@);
    assert(w[7] == "lighting"@);
    assert(w[8] == "other"@);
    assert(w[9] == "outdoor"@);
    assert(w[10] == "place"@);
    assert(w[11] == "places"@);
    assert(w[12] == "room"@);
    assert(w[13] == "rooms"@);
    assert(w[14] == "space"@);
    assert(w[15] == "spaces"@);
    assert(w[16] == "station"@);
    assert(w[17] == "stations"@);
    assert(w[18] == "zone"@);
    assert(w[19] == "zones"@);
}

/// A plural loses its last letter; what ends in two of them, or in
/// another letter, is left as it is.
pub proof fn plurals_lose_their_last_letter(s: Seq<char>, c: char)
    ensures
        s.len() > 0 && s[s.len() - 1] != 's' ==> singular(s.push('s')) == s,
        s.len() > 0 && s[s.len() - 1] == 's' ==> singular(s.push('s')) == s.push('s'),
        c != 's' ==> singular(s.push(c)) == s.push(c),
{
    assert(s.push('s').drop_last() =~= s);
}

/// The last level of an application, its singular, and its words where it
/// has several, are probes for the application, as far as they tell.
#[verifier::spinoff_prover]
pub proof fn applications_have_their_probes(id: u8)
    requires
        id < axis_values(Axis::Application).len() <= 256,
    ensures
        ({
            let leaf = unicode_lower(leaf_level(axis_values(Axis::Application)[id as int]));
            let ws = words(leaf);
            &&& telling(leaf) ==> application_probes().contains((leaf, id))
            &&& telling(singular(leaf)) ==> application_probes().contains((singular(leaf), id))
            &&& ws.len() > 1 ==> forall|k: int|
                0 <= k < ws.len() ==> (telling(#[trigger] ws[k]) ==> application_probes().contains(
                    (ws[k], id),
                )) && (telling(singular(ws[k])) ==> application_probes().contains(
                    (singular(ws[k]), id),
                ))
        }),
{
    let values = axis_values(Axis::Application);
    let leaf = unicode_lower(leaf_level(values[id as int]));
    let ws = words(leaf);
    let all = axis_probes(values, values.len() as int);
    assert forall|x: (Seq<char>, u8)| leaf_probes(values[id as int], id).contains(
        x,
    ) implies #[trigger] application_probes().contains(x) by {
        axis_probes_hold(values, values.len() as int, id as int, x);
        longest_first_holds(all, x);
    }
    let own = both_probes(leaf, id);
    let rest = if ws.len() > 1 {
        word_probes(ws, id, ws.len() as int)
    } else {
        Seq::empty()
    };
    assert(leaf_probes(values[id as int], id) == own + rest);
    both_probes_hold(leaf, id);
    if telling(leaf) {
        probe_in_either(own, rest, (leaf, id));
    }
    if telling(singular(leaf)) {
        probe_in_either(own, rest, (singular(leaf), id));
    }
    if ws.len() > 1 {
        assert forall|k: int| 0 <= k < ws.len() implies (telling(#[trigger] ws[k])
            ==> application_probes().contains((ws[k], id))) && (telling(singular(ws[k]))
            ==> application_probes().contains((singular(ws[k]), id))) by {
            word_probes_hold(ws, id, ws.len() as int, k);
            if telling(ws[k]) {
                probe_in_either(own, rest, (ws[k], id));
            }
            if telling(singular(ws[k])) {
                probe_in_either(own, rest, (singular(ws[k]), id));
            }
        }
    }
}

proof fn probe_in_either(a: Seq<(Seq<char>, u8)>, b: Seq<(Seq<char>, u8)>, x: (Seq<char>, u8))
    ensures
        (a + b).contains(x) <==> a.contains(x) || b.contains(x),
{
    if a.contains(x) {
        let i = choose|i: int| 0 <= i < a.len() && a[i] == x;
        assert((a + b)[i] == x);
    }
    if b.contains(x) {
        let i = choose|i: int| 0 <= i < b.len() && b[i] == x;
        assert((a + b)[a.len() + i] == x);
    }
}

proof fn both_probes_hold(s: Seq<char>, id: u8)
    ensures
        telling(s) ==> both_probes(s, id).contains((s, id)),
        telling(singular(s)) ==> both_probes(s, id).contains((singular(s), id)),
{
    if telling(s) {
        assert(probe(s, id)[0] == (s, id));
    }
    if telling(singular(s)) {
        assert(probe(singular(s), id)[0] == (singular(s), id));
    }
    probe_in_either(probe(s, id), probe(singular(s), id), (s, id));
    probe_in_either(probe(s, id), probe(singular(s), id), (singular(s), id));
}

proof fn word_probes_hold(ws: Seq<Seq<char>>, id: u8, n: int, k: int)
    requires
        0 <= k < n <= ws.len(),
    ensures
        telling(ws[k]) ==> word_probes(ws, id, n).contains((ws[k], id)),
        telling(singular(ws[k])) ==> word_probes(ws, id, n).contains((singular(ws[k]), id)),
    decreases n,
{
    let front = word_probes(ws, id, n - 1);
    let own = both_probes(ws[n - 1], id);
    probe_in_either(front, own, (ws[k], id));
    probe_in_either(front, own, (singular(ws[k]), id));
    if k == n - 1 {
        both_probes_hold(ws[k], id);
    } else {
        word_probes_hold(ws, id, n - 1, k);
    }
}

proof fn axis_probes_hold(values: Seq<Seq<char>>, n: int, i: int, x: (Seq<char>, u8))
    requires
        0 <= i < n <= values.len(),
        leaf_probes(values[i], i as u8).contains(x),
    ensures
        axis_probes(values, n).contains(x),
    decreases n,
{
    probe_in_either(axis_probes(values, n - 1), leaf_probes(values[n - 1], (n - 1) as u8), x);
    if i < n - 1 {
        axis_probes_hold(values, n - 1, i, x);
    }
}

proof fn placed_holds(s: Seq<(Seq<char>, u8)>, p: (Seq<char>, u8), x: (Seq<char>, u8))
    ensures
        placed_by_length(s, p).contains(x) <==> s.contains(x) || x == p,
    decreases s.len(),
{
    let out = placed_by_length(s, p);
    if s.len() == 0 || s.last().0.len() >= p.0.len() {
        probe_in_either(s, seq![p], x);
        assert(s.push(p) =~= s + seq![p]);
        assert(seq![p][0] == p);
    } else {
        placed_holds(s.drop_last(), p, x);
        let front = placed_by_length(s.drop_last(), p);
        probe_in_either(front, seq![s.last()], x);
        assert(front.push(s.last()) =~= front + seq![s.last()]);
        probe_in_either(s.drop_last(), seq![s.last()], x);
        assert(s =~= s.drop_last() + seq![s.last()]);
    }
}

proof fn longest_first_holds(s: Seq<(Seq<char>, u8)>, x: (Seq<char>, u8))
    ensures
        longest_first(s).contains(x) <==> s.contains(x),
    decreases s.len(),
{
    if s.len() > 0 {
        longest_first_holds(s.drop_last(), x);
        placed_holds(longest_first(s.drop_last()), s.last(), x);
        probe_in_either(s.drop_last(), seq![s.last()], x);
        assert(s =~= s.drop_last() + seq![s.last()]);
        assert(seq![s.last()][0] == s.last());
    }
}

/// Longer probes come before shorter ones.
pub proof fn longer_probes_come_first(i: int, j: int)
    requires
        0 <= i < j < application_probes().len(),
    ensures
        application_probes()[i].0.len() >= application_probes()[j].0.len(),
{
    let values = axis_values(Axis::Application);
    longest_first_falls(axis_probes(values, values.len() as int));
}

proof fn longest_first_falls(s: Seq<(Seq<char>, u8)>)
    ensures
        forall|i: int, j: int|
            0 <= i < j < longest_first(s).len() ==> (#[trigger] longest_first(s)[i]).0.len() >= (
            #[trigger] longest_first(s)[j]).0.len(),
    decreases s.len(),
{
    if s.len() > 0 {
        longest_first_falls(s.drop_last());
        placed_falls(longest_first(s.drop_last()), s.last());
    }
}

proof fn placed_falls(s: Seq<(Seq<char>, u8)>, x: (Seq<char>, u8))
    requires
        forall|i: int, j: int|
            0 <= i < j < s.len() ==> (#[trigger] s[i]).0.len() >= (#[trigger] s[j]).0.len(),
    ensures
        forall|i: int, j: int|
            0 <= i < j < placed_by_length(s, x).len() ==> (
            #[trigger] placed_by_length(s, x)[i]).0.len() >= (
            #[trigger] placed_by_length(s, x)[j]).0.len(),
        forall|i: int|
            0 <= i < placed_by_length(s, x).len() ==> #[trigger] placed_by_length(s, x)[i] == x
                || s.contains(placed_by_length(s, x)[i]),
    decreases s.len(),
{
    let out = placed_by_length(s, x);
    if s.len() == 0 || s.last().0.len() >= x.0.len() {
        assert forall|i: int, j: int| 0 <= i < j < out.len() implies (#[trigger] out[i]).0.len() >= (
        #[trigger] out[j]).0.len() by {
            if j == s.len() {
                assert(s[i].0.len() >= s[s.len() - 1].0.len());
            }
        }
    } else {
        let t = s.drop_last();
        placed_falls(t, x);
        let front = placed_by_length(t, x);
        assert forall|i: int, j: int| 0 <= i < j < out.len() implies (#[trigger] out[i]).0.len() >= (
        #[trigger] out[j]).0.len() by {
            assert(out[i] == front[i]);
            if j < front.len() {
                assert(out[j] == front[j]);
            } else if front[i] != x {
                assert(t.contains(front[i]));
                let k = choose|k: int| 0 <= k < t.len() && t[k] == front[i];
                assert(s[k].0.len() >= s[s.len() - 1].0.len());
            }
        }
        assert forall|i: int| 0 <= i < out.len() implies #[trigger] out[i] == x || s.contains(
            out[i],
        ) by {
            if i < front.len() {
                assert(out[i] == front[i]);
                if front[i] != x {
                    let k = choose|k: int| 0 <= k < t.len() && t[k] == front[i];
                    assert(s[k] == front[i]);
                }
            } else {
                assert(s[s.len() - 1] == out[i]);
            }
        }
    }
}

/// Whether a text can tell an application.
fn tells(s: &str) -> (r: bool)
    ensures
        r == telling(s@),
{
    let n: usize = chars_of(s).len();
    let stop: bool = same_text(s, "area") || same_text(s, "areas") || same_text(s, "exterior")
        || same_text(s, "facilities") || same_text(s, "general") || same_text(s, "indoor")
        || same_text(s, "interior") || same_text(s, "lighting") || same_text(s, "other")
        || same_text(s, "outdoor") || same_text(s, "place") || same_text(s, "places") || same_text(
        s,
        "room",
    ) || same_text(s, "rooms") || same_text(s, "space") || same_text(s, "spaces") || same_text(
        s,
        "station",
    ) || same_text(s, "stations") || same_text(s, "zone") || same_text(s, "zones");
    proof {
        let w = stopwords();
        if stop {
            assert(w[0] == "area"@ && w[1] == "areas"@ && w[2] == "exterior"@ && w[3]
                == "facilities"@ && w[4] == "general"@ && w[5] == "indoor"@ && w[6] == "interior"@
                && w[7] == "lighting"@ && w[8] == "other"@ && w[9] == "outdoor"@ && w[10]
                == "place"@ && w[11] == "places"@ && w[12] == "room"@ && w[13] == "rooms"@ && w[14]
                == "space"@ && w[15] == "spaces"@ && w[16] == "station"@ && w[17] == "stations"@
                && w[18] == "zone"@ && w[19] == "zones"@);
            assert(w.contains(s@));
        } else if w.contains(s@) {
            let k = choose|k: int| 0 <= k < w.len() && w[k] == s@;
            assert(0 <= k < 20);
        }
    }
    n >= 4 && !stop
}

/// A word without the plural `s` at its end.
pub fn simple_singular(s: &str) -> (r: String)
    ensures
        r@ == singular(s@),
{
    let cs: Vec<char> = chars_of(s);
    let n: usize = cs.len();
    if n >= 2 && cs[n - 1] == 's' && cs[n - 2] != 's' {
        proof {
            assert(cs@.subrange(0, n - 1) =~= s@.drop_last());
        }
        string_of_range(&cs, 0, n - 1)
    } else {
        owned(s)
    }
}

/// Adds the probe of a text.
fn add_probe(out: &mut Vec<(String, u8)>, s: &str, id: u8)
    ensures
        probe_views(final(out)@) == probe_views(old(out)@) + probe(s@, id),
{
    let ghost before = probe_views(out@);
    if tells(s) {
        out.push((owned(s), id));
        proof {
            assert(probe_views(out@) =~= before + seq![(s@, id)]);
        }
    } else {
        proof {
            assert(before + Seq::<(Seq<char>, u8)>::empty() =~= before);
        }
    }
}

/// Adds the probes of a text and its singular.
fn add_both(out: &mut Vec<(String, u8)>, s: &str, id: u8)
    ensures
        probe_views(final(out)@) == probe_views(old(out)@) + both_probes(s@, id),
{
    let ghost before = probe_views(out@);
    let one: String = simple_singular(s);
    add_probe(out, s, id);
    if !same_text(one.as_str(), s) {
        add_probe(out, one.as_str(), id);
        proof {
            assert(before + probe(s@, id) + probe(singular(s@), id) =~= before + both_probes(
                s@,
                id,
            ));
        }
    }
}

/// Adds the probes of one application.
fn add_leaf(out: &mut Vec<(String, u8)>, value: &str, id: u8)
    ensures
        probe_views(final(out)@) == probe_views(old(out)@) + leaf_probes(value@, id),
{
    let ghost before = probe_views(out@);
    let leaf: String = lowercase(leaf_of(value).as_str());
    add_both(out, leaf.as_str(), id);
    let ghost mid = probe_views(out@);
    let parts: Vec<String> = split_words(leaf.as_str());
    let ghost ws = texts(parts@);
    if parts.len() > 1 {
        let mut i: usize = 0;
        proof {
            assert(mid + word_probes(ws, id, 0) =~= mid);
        }
        while i < parts.len()
            invariant
                i <= parts@.len(),
                ws == texts(parts@),
                probe_views(out@) == mid + word_probes(ws, id, i as int),
            decreases parts@.len() - i,
        {
            proof {
                assert(ws[i as int] == parts@[i as int]@);
                assert(mid + word_probes(ws, id, i as int) + both_probes(ws[i as int], id) =~= mid
                    + word_probes(ws, id, i + 1));
            }
            add_both(out, parts[i].as_str(), id);
            i += 1;
        }
    }
    proof {
        assert(probe_views(out@) =~= before + leaf_probes(value@, id));
    }
}

/// Puts a probe behind the last one that is not shorter.
fn place_by_length(out: &mut Vec<(String, u8)>, x: (String, u8))
    ensures
        probe_views(final(out)@) == placed_by_length(probe_views(old(out)@), (x.0@, x.1)),
{
    let n: usize = chars_of(x.0.as_str()).len();
    let ghost s = probe_views(out@);
    let ghost new = (x.0@, x.1);
    let mut pos: usize = out.len();
    proof {
        assert(s.take(s.len() as int) =~= s);
        assert(placed_by_length(s, new) + s.skip(s.len() as int) =~= placed_by_length(s, new));
    }
    while pos > 0 && chars_of(out[pos - 1].0.as_str()).len() < n
        invariant
            pos <= out@.len(),
            n == new.0.len(),
            s == probe_views(out@),
            placed_by_length(s, new) == placed_by_length(s.take(pos as int), new) + s.skip(
                pos as int,
            ),
        decreases pos,
    {
        proof {
            let t = s.take(pos as int);
            assert(t.last() == s[pos - 1]);
            assert(s[pos - 1] == (out@[pos - 1].0@, out@[pos - 1].1));
            assert(t.drop_last() =~= s.take(pos - 1));
            assert(placed_by_length(s.take(pos - 1), new).push(t.last()) + s.skip(pos as int)
                =~= placed_by_length(s.take(pos - 1), new) + s.skip(pos - 1));
        }
        pos -= 1;
    }
    proof {
        let t = s.take(pos as int);
        if pos > 0 {
            assert(t.last() == s[pos - 1]);
            assert(s[pos - 1] == (out@[pos - 1].0@, out@[pos - 1].1));
        }
        assert(placed_by_length(t, new) == t.push(new));
        assert(t.push(new) + s.skip(pos as int) =~= s.insert(pos as int, new));
    }
    out.insert(pos, x);
    proof {
        assert(probe_views(out@) =~= s.insert(pos as int, new));
    }
}

/// The probes of all applications, from the longest to the shortest.
pub fn application_leaves_lower() -> (r: Vec<(String, u8)>)
    ensures
        probe_views(r@) == application_probes(),
{
    let ghost values = axis_values(Axis::Application);
    let mut all: Vec<(String, u8)> = Vec::new();
    proof {
        assert(probe_views(all@) =~= axis_probes(values, 0));
    }
    let vals: &'static [&'static str] =
        match gldf_rs::validation::xsd_enums::canonical_set_for(element_of(Axis::Application)) {
        Some(v) => v,
        None => {
            proof {
                assert(axis_probes(values, 0) =~= Seq::empty());
                assert(application_probes() =~= Seq::empty());
            }
            return all;
        },
    };
    let mut i: usize = 0;
    while i < vals.len()
        invariant
            i <= vals@.len() <= 256,
            values == str_texts(vals@),
            probe_views(all@) == axis_probes(values, i as int),
        decreases vals@.len() - i,
    {
        proof {
            assert(values[i as int] == vals@[i as int]@);
        }
        add_leaf(&mut all, vals[i], i as u8);
        i += 1;
    }
    let ghost whole = probe_views(all@);
    let mut out: Vec<(String, u8)> = Vec::new();
    let mut k: usize = 0;
    proof {
        assert(probe_views(out@) =~= longest_first(whole.take(0)));
    }
    while k < all.len()
        invariant
            k <= all@.len(),
            whole == probe_views(all@),
            probe_views(out@) == longest_first(whole.take(k as int)),
        decreases all@.len() - k,
    {
        proof {
            assert(whole[k as int] == (all@[k as int].0@, all@[k as int].1));
            assert(whole.take(k + 1).drop_last() =~= whole.take(k as int));
            assert(whole.take(k + 1).last() == whole[k as int]);
        }
        let x: (String, u8) = (all[k].0.clone(), all[k].1);
        place_by_length(&mut out, x);
        k += 1;
    }
    proof {
        assert(whole.take(whole.len() as int) =~= whole);
    }
    out
}

} // verus!
