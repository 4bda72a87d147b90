//! Manufacturer names and the keys that group their spellings.

use crate::text::{
    ascii_alphanumeric, ascii_lower, ascii_lower_char, chars_of, is_alphanumeric, push_text,
    same_text, string_of_range, texts, to_ascii_lower_char, trim, trim_back, trim_front, trimmed,
    unicode_alphanumeric, unicode_whitespace, white_space,
};
use crate::words::{split_words, words};
use vstd::prelude::*;

verus! {

/// The spellings of legal forms that a name may end in.
pub open spec fn legal_suffixes() -> Seq<Seq<char>> {
    seq![
        "s.a."@,
        "s.a"@,
        "sa"@,
        "gmbh"@,
        "g.m.b.h."@,
        "ag"@,
        "a.g."@,
        "ltd"@,
        "ltd."@,
        "limited"@,
        "inc"@,
        "inc."@,
        "incorporated"@,
        "llc"@,
        "l.l.c."@,
        "co"@,
        "co."@,
        "company"@,
        "kg"@,
        "k.g."@,
        "ohg"@,
        "o.h.g."@,
        "se"@,
        "plc"@,
        "n.v."@,
        "nv"@,
        "b.v."@,
        "bv"@,
        "s.r.l."@,
        "srl"@,
        "s.p.a."@,
        "spa"@,
        "s.l."@,
        "sl"@,
        "s.l.u."@,
        "slu"@,
        "oy"@,
        "ab"@,
        "as"@,
        "a.s."@,
    ]
}

/// The `i`th legal form.
fn legal_suffix(i: usize) -> (r: &'static str)
    requires
        i < 40,
    ensures
        r@ == legal_suffixes()[i as int],
{
    if i == 0 {
        "s.a."
    } else if i == 1 {
        "s.a"
    } else if i == 2 {
        "sa"
    } else if i == 3 {
        "gmbh"
    } else if i == 4 {
        "g.m.b.h."
    } else if i == 5 {
        "ag"
    } else if i == 6 {
        "a.g."
    } else if i == 7 {
        "ltd"
    } else if i == 8 {
        "ltd."
    } else if i == 9 {
        "limited"
    } else if i == 10 {
        "inc"
    } else if i == 11 {
        "inc."
    } else if i == 12 {
        "incorporated"
    } else if i == 13 {
        "llc"
    } else if i == 14 {
        "l.l.c."
    } else if i == 15 {
        "co"
    } else if i == 16 {
        "co."
    } else if i == 17 {
        "company"
    } else if i == 18 {
        "kg"
    } else if i == 19 {
        "k.g."
    } else if i == 20 {
        "ohg"
    } else if i == 21 {
        "o.h.g."
    } else if i == 22 {
        "se"
    } else if i == 23 {
        "plc"
    } else if i == 24 {
        "n.v."
    } else if i == 25 {
        "nv"
    } else if i == 26 {
        "b.v."
    } else if i == 27 {
        "bv"
    } else if i == 28 {
        "s.r.l."
    } else if i == 29 {
        "srl"
    } else if i == 30 {
        "s.p.a."
    } else if i == 31 {
        "spa"
    } else if i == 32 {
        "s.l."
    } else if i == 33 {
        "sl"
    } else if i == 34 {
        "s.l.u."
    } else if i == 35 {
        "slu"
    } else if i == 36 {
        "oy"
    } else if i == 37 {
        "ab"
    } else if i == 38 {
        "as"
    } else {
        "a.s."
    }
}

/// Whether a character is a letter or a digit. White space is neither.
pub open spec fn name_letter(c: char) -> bool {
    if (c as u32) < 128 {
        ascii_alphanumeric(c)
    } else {
        unicode_alphanumeric(c) && !unicode_whitespace(c)
    }
}

/// The letters and digits of a name in small ASCII letters, with a
/// single space for every run of other characters behind one.
pub open spec fn spaced_open(s: Seq<char>) -> Seq<char>
    decreases s.len(),
{
    if s.len() == 0 {
        Seq::empty()
    } else {
        let front = spaced_open(s.drop_last());
        if name_letter(s.last()) {
            front.push(ascii_lower_char(s.last()))
        } else if front.len() == 0 || front.last() == ' ' {
            front
        } else {
            front.push(' ')
        }
    }
}

/// A name in small letters, its words set apart by single spaces.
pub open spec fn spaced(s: Seq<char>) -> Seq<char> {
    let t = spaced_open(s);
    if t.len() > 0 && t.last() == ' ' {
        t.drop_last()
    } else {
        t
    }
}

/// What is left of a spaced name without one legal form at its end; the
/// name itself where it does not end in the form.
pub open spec fn without_suffix(s: Seq<char>, suffix: Seq<char>) -> Seq<char> {
    let tail = seq![' '] + suffix;
    if suffix.len() == 0 {
        s
    } else if s.len() >= tail.len() && s.skip(s.len() - tail.len()) == tail {
        s.take(s.len() - tail.len())
    } else if s == suffix {
        Seq::empty()
    } else {
        s
    }
}

/// A spaced name without the first of the legal forms, from the `i`th
/// on, that it ends in.
pub open spec fn stripped_from(s: Seq<char>, i: int) -> Seq<char>
    decreases legal_suffixes().len() - i,
{
    if i < 0 || i >= legal_suffixes().len() {
        s
    } else if without_suffix(s, spaced(legal_suffixes()[i])).len() < s.len() {
        without_suffix(s, spaced(legal_suffixes()[i]))
    } else {
        stripped_from(s, i + 1)
    }
}

/// A spaced name without all the legal forms that it ends in.
pub open spec fn stripped(s: Seq<char>) -> Seq<char>
    decreases s.len(),
{
    let t = stripped_from(s, 0);
    if t.len() < s.len() {
        stripped(t)
    } else {
        s
    }
}

/// How many of the words from the front on are single letters.
pub open spec fn letter_run(ws: Seq<Seq<char>>) -> int
    decreases ws.len(),
{
    if ws.len() > 0 && ws[0].len() == 1 {
        1 + letter_run(ws.drop_first())
    } else {
        0
    }
}

/// Texts in a row.
pub open spec fn glued(ws: Seq<Seq<char>>) -> Seq<char>
    decreases ws.len(),
{
    if ws.len() == 0 {
        Seq::empty()
    } else {
        glued(ws.drop_last()) + ws.last()
    }
}

/// The words with every run of two single letters or more made one word.
pub open spec fn acronyms_joined(ws: Seq<Seq<char>>) -> Seq<Seq<char>>
    decreases ws.len(),
{
    if ws.len() == 0 {
        Seq::empty()
    } else if 2 <= letter_run(ws) <= ws.len() {
        seq![glued(ws.take(letter_run(ws)))] + acronyms_joined(ws.skip(letter_run(ws)))
    } else {
        seq![ws[0]] + acronyms_joined(ws.skip(1))
    }
}

/// The words with a space between each two.
pub open spec fn spelled(ws: Seq<Seq<char>>) -> Seq<char>
    decreases ws.len(),
{
    if ws.len() == 0 {
        Seq::empty()
    } else if spelled(ws.drop_last()).len() == 0 {
        spelled(ws.drop_last()) + ws.last()
    } else {
        spelled(ws.drop_last()) + seq![' '] + ws.last()
    }
}

/// The key of a manufacturer name: small letters, without punctuation,
/// without the legal forms at its end, acronyms in one word.
pub open spec fn name_key(s: Seq<char>) -> Seq<char> {
    trim(spelled(acronyms_joined(words(stripped(spaced(s))))))
}

/// The case of ASCII letters does not matter to the key.
pub proof fn key_ignores_case(s: Seq<char>)
    ensures
        name_key(ascii_lower(s)) == name_key(s),
{
    spaced_ignores_case(s);
}

proof fn spaced_ignores_case(s: Seq<char>)
    ensures
        spaced_open(ascii_lower(s)) == spaced_open(s),
    decreases s.len(),
{
    if s.len() > 0 {
        let t = ascii_lower(s);
        spaced_ignores_case(s.drop_last());
        assert(t.drop_last() =~= ascii_lower(s.drop_last()));
        assert(t.last() == ascii_lower_char(s.last()));
    } else {
        assert(ascii_lower(s) =~= s);
    }
}

// ---------------------------------------------------------------------
// What does not matter to the key
// ---------------------------------------------------------------------

/// Whether a text that is spaced so far is open to a word: it is empty or
/// ends in a space.
spec fn awaits_word(t: Seq<char>) -> bool {
    t.len() == 0 || t.last() == ' '
}

/// What stands behind an open text is spaced as it is alone.
proof fn spaced_joins(u: Seq<char>, v: Seq<char>)
    requires
        awaits_word(spaced_open(u)),
    ensures
        spaced_open(u + v) == spaced_open(u) + spaced_open(v),
    decreases v.len(),
{
    let p = spaced_open(u);
    if v.len() == 0 {
        assert(u + v =~= u);
        assert(p + spaced_open(v) =~= p);
    } else {
        let w = v.drop_last();
        spaced_joins(u, w);
        assert((u + v).drop_last() =~= u + w);
        assert((u + v).last() == v.last());
        let q = spaced_open(w);
        if q.len() == 0 {
            assert(p + q =~= p);
        } else {
            assert((p + q).last() == q.last());
        }
        assert((p + q).push(' ') =~= p + q.push(' '));
        assert((p + q).push(ascii_lower_char(v.last())) =~= p + q.push(ascii_lower_char(v.last())));
    }
}

/// A character that is neither letter nor digit at the end changes
/// nothing.
proof fn spaced_without_last(s: Seq<char>)
    requires
        s.len() > 0,
        !name_letter(s.last()),
    ensures
        spaced(s) == spaced(s.drop_last()),
{
    let t = spaced_open(s.drop_last());
    if t.len() > 0 && t.last() != ' ' {
        assert(t.push(' ').drop_last() =~= t);
    }
}

/// A character that is neither letter nor digit at the front changes
/// nothing.
proof fn spaced_without_first(s: Seq<char>)
    requires
        s.len() > 0,
        !name_letter(s[0]),
    ensures
        spaced(s) == spaced(s.drop_first()),
{
    let u = seq![s[0]];
    assert(u.drop_last() =~= Seq::empty());
    assert(spaced_open(u.drop_last()) =~= Seq::empty());
    assert(spaced_open(u) =~= Seq::empty());
    spaced_joins(u, s.drop_first());
    assert(u + s.drop_first() =~= s);
    assert(spaced_open(u) + spaced_open(s.drop_first()) =~= spaced_open(s.drop_first()));
}

proof fn spaced_without_front(s: Seq<char>)
    ensures
        spaced(trim_front(s)) == spaced(s),
    decreases s.len(),
{
    if s.len() > 0 && white_space(s[0]) {
        spaced_without_first(s);
        spaced_without_front(s.drop_first());
    }
}

proof fn spaced_without_back(s: Seq<char>)
    ensures
        spaced(trim_back(s)) == spaced(s),
    decreases s.len(),
{
    if s.len() > 0 && white_space(s.last()) {
        spaced_without_last(s);
        spaced_without_back(s.drop_last());
    }
}

/// White space around a name does not matter to its key.
pub proof fn key_ignores_white_space_around(s: Seq<char>)
    ensures
        name_key(trim(s)) == name_key(s),
{
    spaced_without_front(s);
    spaced_without_back(trim_front(s));
}

/// A name with one space for each run of characters that are neither
/// letters nor digits.
pub open spec fn runs_spaced(s: Seq<char>) -> Seq<char>
    decreases s.len(),
{
    if s.len() == 0 {
        Seq::empty()
    } else if name_letter(s.last()) {
        runs_spaced(s.drop_last()).push(s.last())
    } else if s.len() > 1 && !name_letter(s[s.len() - 2]) {
        runs_spaced(s.drop_last())
    } else {
        runs_spaced(s.drop_last()).push(' ')
    }
}

proof fn spaced_ignores_separators(s: Seq<char>)
    ensures
        spaced_open(runs_spaced(s)) == spaced_open(s),
        s.len() > 0 && !name_letter(s.last()) ==> awaits_word(spaced_open(s)),
    decreases s.len(),
{
    if s.len() > 0 {
        let t = s.drop_last();
        spaced_ignores_separators(t);
        let r = runs_spaced(t);
        if name_letter(s.last()) {
            assert(r.push(s.last()).drop_last() =~= r);
        } else if s.len() > 1 && !name_letter(s[s.len() - 2]) {
            assert(t.last() == s[s.len() - 2]);
        } else {
            assert(r.push(' ').drop_last() =~= r);
        }
    }
}

/// Which characters set the words of a name apart, and how many of them,
/// does not matter to its key.
pub proof fn key_ignores_separators(s: Seq<char>)
    ensures
        name_key(runs_spaced(s)) == name_key(s),
{
    spaced_ignores_separators(s);
}

/// A name without letters and digits has an empty key.
pub proof fn blank_names_have_no_key(s: Seq<char>)
    requires
        trim(s).len() == 0,
    ensures
        name_key(s).len() == 0,
{
    key_ignores_white_space_around(s);
    assert(trim(s) =~= Seq::empty());
    let e = Seq::<char>::empty();
    assert(spaced(e) =~= e);
    nothing_to_strip(0);
    assert(stripped(e) == e);
    assert(words(e) =~= Seq::empty());
    assert(acronyms_joined(words(e)) =~= Seq::empty());
    assert(spelled(acronyms_joined(words(e))) =~= e);
}

proof fn nothing_to_strip(i: int)
    ensures
        stripped_from(Seq::empty(), i) == Seq::<char>::empty(),
    decreases legal_suffixes().len() - i,
{
    if 0 <= i < legal_suffixes().len() {
        nothing_to_strip(i + 1);
    }
}

/// The legal forms as they stand in a spaced name.
spec fn spaced_forms() -> Seq<Seq<char>> {
    seq![
        "s a"@,
        "s a"@,
        "sa"@,
        "gmbh"@,
        "g m b h"@,
        "ag"@,
        "a g"@,
        "ltd"@,
        "ltd"@,
        "limited"@,
        "inc"@,
        "inc"@,
        "incorporated"@,
        "llc"@,
        "l l c"@,
        "co"@,
        "co"@,
        "company"@,
        "kg"@,
        "k g"@,
        "ohg"@,
        "o h g"@,
        "se"@,
        "plc"@,
        "n v"@,
        "nv"@,
        "b v"@,
        "bv"@,
        "s r l"@,
        "srl"@,
        "s p a"@,
        "spa"@,
        "s l"@,
        "sl"@,
        "s l u"@,
        "slu"@,
        "oy"@,
        "ab"@,
        "as"@,
        "a s"@,
    ]
}

/// Whether a text is made of small letters with single points between or
/// behind them.
spec fn is_dotted(s: Seq<char>) -> bool {
    &&& forall|k: int| 0 <= k < s.len() ==> 'a' <= #[trigger] s[k] <= 'z' || s[k] == '.'
    &&& forall|k: int| 0 <= k < s.len() - 1 && #[trigger] s[k] == '.' ==> s[k + 1] != '.'
    &&& s.len() > 0 ==> s[0] != '.'
}

/// A text with spaces for its points.
spec fn without_points(s: Seq<char>) -> Seq<char> {
    Seq::new(
        s.len(),
        |k: int|
            if s[k] == '.' {
                ' '
            } else {
                s[k]
            },
    )
}

proof fn spaced_as_dotted(s: Seq<char>)
    requires
        is_dotted(s),
    ensures
        spaced_open(s) == without_points(s),
    decreases s.len(),
{
    if s.len() > 0 {
        let t = s.drop_last();
        assert(is_dotted(t)) by {
            assert forall|k: int| 0 <= k < t.len() implies 'a' <= #[trigger] t[k] <= 'z' || t[k]
                == '.' by {
                assert(t[k] == s[k]);
            }
            assert forall|k: int| 0 <= k < t.len() - 1 && #[trigger] t[k] == '.' implies t[k + 1]
                != '.' by {
                assert(t[k] == s[k] && t[k + 1] == s[k + 1]);
            }
        }
        spaced_as_dotted(t);
        let c = s.last();
        assert(c == s[s.len() - 1]);
        if c == '.' {
            assert(s[s.len() - 2] != '.');
            assert(without_points(t).last() == s[s.len() - 2]);
            assert(without_points(s) =~= without_points(t).push(' '));
        } else {
            assert(ascii_lower_char(c) == c);
            assert(without_points(s) =~= without_points(t).push(c));
        }
    } else {
        assert(without_points(s) =~= Seq::empty());
    }
}

/// The `i`th legal form as it stands in a spaced name.
proof fn form_is_spaced(i: int)
    requires
        0 <= i < legal_suffixes().len(),
    ensures
        spaced(legal_suffixes()[i]) == spaced_forms()[i],
{
    if i == 0 {
        reveal_strlit("s.a.");
        reveal_strlit("s a");
        spaced_as_dotted("s.a."@);
        assert(spaced("s.a."@) =~= "s a"@);
    } else if i == 1 {
        reveal_strlit("s.a");
        reveal_strlit("s a");
        spaced_as_dotted("s.a"@);
        assert(spaced("s.a"@) =~= "s a"@);
    } else if i == 2 {
        reveal_strlit("sa");
        spaced_as_dotted("sa"@);
        assert(spaced("sa"@) =~= "sa"@);
    } else if i == 3 {
        reveal_strlit("gmbh");
        spaced_as_dotted("gmbh"@);
        assert(spaced("gmbh"@) =~= "gmbh"@);
    } else if i == 4 {
        reveal_strlit("g.m.b.h.");
        reveal_strlit("g m b h");
        spaced_as_dotted("g.m.b.h."@);
        assert(spaced("g.m.b.h."@) =~= "g m b h"@);
    } else if i == 5 {
        reveal_strlit("ag");
        spaced_as_dotted("ag"@);
        assert(spaced("ag"@) =~= "ag"@);
    } else if i == 6 {
        reveal_strlit("a.g.");
        reveal_strlit("a g");
        spaced_as_dotted("a.g."@);
        assert(spaced("a.g."@) =~= "a g"@);
    } else if i == 7 {
        reveal_strlit("ltd");
        spaced_as_dotted("ltd"@);
        assert(spaced("ltd"@) =~= "ltd"@);
    } else if i == 8 {
        reveal_strlit("ltd.");
        reveal_strlit("ltd");
        spaced_as_dotted("ltd."@);
        assert(spaced("ltd."@) =~= "ltd"@);
    } else if i == 9 {
        reveal_strlit("limited");
        spaced_as_dotted("limited"@);
        assert(spaced("limited"@) =~= "limited"@);
    } else if i == 10 {
        reveal_strlit("inc");
        spaced_as_dotted("inc"@);
        assert(spaced("inc"@) =~= "inc"@);
    } else if i == 11 {
        reveal_strlit("inc.");
        reveal_strlit("inc");
        spaced_as_dotted("inc."@);
        assert(spaced("inc."@) =~= "inc"@);
    } else if i == 12 {
        reveal_strlit("incorporated");
        spaced_as_dotted("incorporated"@);
        assert(spaced("incorporated"@) =~= "incorporated"@);
    } else if i == 13 {
        reveal_strlit("llc");
        spaced_as_dotted("llc"@);
        assert(spaced("llc"@) =~= "llc"@);
    } else if i == 14 {
        reveal_strlit("l.l.c.");
        reveal_strlit("l l c");
        spaced_as_dotted("l.l.c."@);
        assert(spaced("l.l.c."@) =~= "l l c"@);
    } else if i == 15 {
        reveal_strlit("co");
        spaced_as_dotted("co"@);
        assert(spaced("co"@) =~= "co"@);
    } else if i == 16 {
        reveal_strlit("co.");
        reveal_strlit("co");
        spaced_as_dotted("co."@);
        assert(spaced("co."@) =~= "co"@);
    } else if i == 17 {
        reveal_strlit("company");
        spaced_as_dotted("company"@);
        assert(spaced("company"@) =~= "company"@);
    } else if i == 18 {
        reveal_strlit("kg");
        spaced_as_dotted("kg"@);
        assert(spaced("kg"@) =~= "kg"@);
    } else if i == 19 {
        reveal_strlit("k.g.");
        reveal_strlit("k g");
        spaced_as_dotted("k.g."@);
        assert(spaced("k.g."@) =~= "k g"@);
    } else if i == 20 {
        reveal_strlit("ohg");
        spaced_as_dotted("ohg"@);
        assert(spaced("ohg"@) =~= "ohg"@);
    } else if i == 21 {
        reveal_strlit("o.h.g.");
        reveal_strlit("o h g");
        spaced_as_dotted("o.h.g."@);
        assert(spaced("o.h.g."@) =~= "o h g"@);
    } else if i == 22 {
        reveal_strlit("se");
        spaced_as_dotted("se"@);
        assert(spaced("se"@) =~= "se"@);
    } else if i == 23 {
        reveal_strlit("plc");
        spaced_as_dotted("plc"@);
        assert(spaced("plc"@) =~= "plc"@);
    } else if i == 24 {
        reveal_strlit("n.v.");
        reveal_strlit("n v");
        spaced_as_dotted("n.v."@);
        assert(spaced("n.v."@) =~= "n v"@);
    } else if i == 25 {
        reveal_strlit("nv");
        spaced_as_dotted("nv"@);
        assert(spaced("nv"@) =~= "nv"@);
    } else if i == 26 {
        reveal_strlit("b.v.");
        reveal_strlit("b v");
        spaced_as_dotted("b.v."@);
        assert(spaced("b.v."@) =~= "b v"@);
    } else if i == 27 {
        reveal_strlit("bv");
        spaced_as_dotted("bv"@);
        assert(spaced("bv"@) =~= "bv"@);
    } else if i == 28 {
        reveal_strlit("s.r.l.");
        reveal_strlit("s r l");
        spaced_as_dotted("s.r.l."@);
        assert(spaced("s.r.l."@) =~= "s r l"@);
    } else if i == 29 {
        reveal_strlit("srl");
        spaced_as_dotted("srl"@);
        assert(spaced("srl"@) =~= "srl"@);
    } else if i == 30 {
        reveal_strlit("s.p.a.");
        reveal_strlit("s p a");
        spaced_as_dotted("s.p.a."@);
        assert(spaced("s.p.a."@) =~= "s p a"@);
    } else if i == 31 {
        reveal_strlit("spa");
        spaced_as_dotted("spa"@);
        assert(spaced("spa"@) =~= "spa"@);
    } else if i == 32 {
        reveal_strlit("s.l.");
        reveal_strlit("s l");
        spaced_as_dotted("s.l."@);
        assert(spaced("s.l."@) =~= "s l"@);
    } else if i == 33 {
        reveal_strlit("sl");
        spaced_as_dotted("sl"@);
        assert(spaced("sl"@) =~= "sl"@);
    } else if i == 34 {
        reveal_strlit("s.l.u.");
        reveal_strlit("s l u");
        spaced_as_dotted("s.l.u."@);
        assert(spaced("s.l.u."@) =~= "s l u"@);
    } else if i == 35 {
        reveal_strlit("slu");
        spaced_as_dotted("slu"@);
        assert(spaced("slu"@) =~= "slu"@);
    } else if i == 36 {
        reveal_strlit("oy");
        spaced_as_dotted("oy"@);
        assert(spaced("oy"@) =~= "oy"@);
    } else if i == 37 {
        reveal_strlit("ab");
        spaced_as_dotted("ab"@);
        assert(spaced("ab"@) =~= "ab"@);
    } else if i == 38 {
        reveal_strlit("as");
        spaced_as_dotted("as"@);
        assert(spaced("as"@) =~= "as"@);
    } else {
        reveal_strlit("a.s.");
        reveal_strlit("a s");
        spaced_as_dotted("a.s."@);
        assert(spaced("a.s."@) =~= "a s"@);
    }
}

/// What the legal forms of several words look like.
spec fn form_shape(f: Seq<char>) -> bool {
    &&& 2 <= f.len()
    &&& f.len() == 3 && f[1] == ' ' ==> {
        ||| f[0] == 's' && f[2] == 'a'
        ||| f[0] == 'a' && f[2] == 'g'
        ||| f[0] == 'k' && f[2] == 'g'
        ||| f[0] == 'n' && f[2] == 'v'
        ||| f[0] == 'b' && f[2] == 'v'
        ||| f[0] == 's' && f[2] == 'l'
        ||| f[0] == 'a' && f[2] == 's'
    }
    &&& f[0] != 'm'
    &&& forall|p: int| 0 <= p < f.len() && #[trigger] f[p] == ' ' ==> {
        ||| f.len() == 3 && p == 1
        ||| f.len() == 5 && (p == 1 || p == 3) && f[3] == ' ' && {
            ||| f[2] == 'l' && f[4] == 'c'
            ||| f[2] == 'h' && f[4] == 'g'
            ||| f[2] == 'r' && f[4] == 'l'
            ||| f[2] == 'p' && f[4] == 'a'
            ||| f[2] == 'l' && f[4] == 'u'
        }
        ||| f.len() == 7 && (p == 1 || p == 3 || p == 5) && f[2] == 'm' && f[4] == 'b' && f[5]
            == ' ' && f[6] == 'h'
    }
}

proof fn forms_have_shape(i: int)
    requires
        0 <= i < legal_suffixes().len(),
    ensures
        form_shape(spaced_forms()[i]),
{
    if i == 0 {
        reveal_strlit("s a");
    } else if i == 1 {
        reveal_strlit("s a");
    } else if i == 2 {
        reveal_strlit("sa");
    } else if i == 3 {
        reveal_strlit("gmbh");
    } else if i == 4 {
        reveal_strlit("g m b h");
    } else if i == 5 {
        reveal_strlit("ag");
    } else if i == 6 {
        reveal_strlit("a g");
    } else if i == 7 {
        reveal_strlit("ltd");
    } else if i == 8 {
        reveal_strlit("ltd");
    } else if i == 9 {
        reveal_strlit("limited");
    } else if i == 10 {
        reveal_strlit("inc");
    } else if i == 11 {
        reveal_strlit("inc");
    } else if i == 12 {
        reveal_strlit("incorporated");
    } else if i == 13 {
        reveal_strlit("llc");
    } else if i == 14 {
        reveal_strlit("l l c");
    } else if i == 15 {
        reveal_strlit("co");
    } else if i == 16 {
        reveal_strlit("co");
    } else if i == 17 {
        reveal_strlit("company");
    } else if i == 18 {
        reveal_strlit("kg");
    } else if i == 19 {
        reveal_strlit("k g");
    } else if i == 20 {
        reveal_strlit("ohg");
    } else if i == 21 {
        reveal_strlit("o h g");
    } else if i == 22 {
        reveal_strlit("se");
    } else if i == 23 {
        reveal_strlit("plc");
    } else if i == 24 {
        reveal_strlit("n v");
    } else if i == 25 {
        reveal_strlit("nv");
    } else if i == 26 {
        reveal_strlit("b v");
    } else if i == 27 {
        reveal_strlit("bv");
    } else if i == 28 {
        reveal_strlit("s r l");
    } else if i == 29 {
        reveal_strlit("srl");
    } else if i == 30 {
        reveal_strlit("s p a");
    } else if i == 31 {
        reveal_strlit("spa");
    } else if i == 32 {
        reveal_strlit("s l");
    } else if i == 33 {
        reveal_strlit("sl");
    } else if i == 34 {
        reveal_strlit("s l u");
    } else if i == 35 {
        reveal_strlit("slu");
    } else if i == 36 {
        reveal_strlit("oy");
    } else if i == 37 {
        reveal_strlit("ab");
    } else if i == 38 {
        reveal_strlit("as");
    } else {
        reveal_strlit("a s");
    }
}

/// No legal form ends in another one that stands there as a word of its
/// own.
proof fn forms_do_not_nest(i: int, j: int)
    requires
        0 <= i < legal_suffixes().len(),
        0 <= j < legal_suffixes().len(),
    ensures
        !ends_in_form(spaced_forms()[i], spaced_forms()[j]),
        spaced_forms()[i].len() > 0,
{
    forms_have_shape(i);
    forms_have_shape(j);
    let f = spaced_forms()[i];
    let g = spaced_forms()[j];
    if ends_in_form(f, g) {
        let p = f.len() - g.len() - 1;
        let tail = f.skip(p);
        assert(tail[0] == ' ');
        assert(f[p] == ' ');
        let end = seq![' '] + g;
        assert(tail[1] == end[1] && end[1] == g[0] && tail[1] == f[p + 1]);
        assert(tail[2] == end[2] && end[2] == g[1] && tail[2] == f[p + 2]);
        if g.len() == 3 {
            assert(tail[3] == end[3] && end[3] == g[2] && tail[3] == f[p + 3]);
        }
    }
}

/// Whether a spaced text ends in a form as a word of its own, with other
/// words before it.
spec fn ends_in_form(s: Seq<char>, form: Seq<char>) -> bool {
    s.len() > form.len() && s.skip(s.len() - form.len() - 1) == seq![' '] + form
}

/// A spaced name with a legal form behind it loses that form first.
proof fn form_is_stripped(a: Seq<char>, k: int, i: int)
    requires
        0 <= k < legal_suffixes().len(),
        0 <= i <= k,
    ensures
        stripped_from(with_form(a, spaced_forms()[k]), i) == a,
    decreases k - i,
{
    let f = spaced_forms()[k];
    let g = spaced_forms()[i];
    let x = with_form(a, f);
    form_is_spaced(i);
    forms_do_not_nest(i, k);
    forms_do_not_nest(k, i);
    let tail = seq![' '] + g;
    let t = without_suffix(x, g);
    if f == g {
        if a.len() == 0 {
            assert(t =~= a);
        } else {
            assert(x.skip(x.len() - tail.len()) =~= tail);
            assert(x.take(x.len() - tail.len()) =~= a);
        }
    } else {
        if x.len() >= tail.len() && x.skip(x.len() - tail.len()) == tail {
            same_end(x, a, f, g);
        }
        if x == g && a.len() > 0 {
            assert(g.skip(g.len() - f.len() - 1) =~= seq![' '] + f);
        }
        assert(t == x);
        form_is_stripped(a, k, i + 1);
    }
}

/// A spaced name with a form behind it.
spec fn with_form(a: Seq<char>, f: Seq<char>) -> Seq<char> {
    if a.len() == 0 {
        f
    } else {
        a + seq![' '] + f
    }
}

/// Of two forms that one name ends in, the shorter ends the longer.
proof fn same_end(x: Seq<char>, a: Seq<char>, f: Seq<char>, g: Seq<char>)
    requires
        x == with_form(a, f),
        f.len() > 0,
        g.len() > 0,
        x.len() > g.len(),
        x.skip(x.len() - g.len() - 1) == seq![' '] + g,
    ensures
        f == g || ends_in_form(f, g) || ends_in_form(g, f),
{
    let n = x.len();
    let tail = seq![' '] + g;
    assert forall|k: int| 0 <= k < tail.len() implies tail[k] == #[trigger] x[n - tail.len() + k] by {
        assert(x.skip(n - tail.len())[k] == tail[k]);
    }
    assert forall|k: int| 0 <= k < f.len() implies f[k] == #[trigger] x[n - f.len() + k] by {}
    if f.len() == g.len() {
        assert forall|k: int| 0 <= k < f.len() implies f[k] == g[k] by {
            assert(tail[k + 1] == x[n - tail.len() + (k + 1)]);
            assert(f[k] == x[n - f.len() + k]);
        }
        assert(f =~= g);
    } else if f.len() > g.len() {
        let d = f.len() - tail.len();
        assert forall|k: int| 0 <= k < tail.len() implies f.skip(d)[k] == tail[k] by {
            assert(tail[k] == x[n - tail.len() + k]);
            assert(f[d + k] == x[n - f.len() + (d + k)]);
        }
        assert(f.skip(d) =~= tail);
    } else {
        assert(a.len() > 0);
        let head = seq![' '] + f;
        let d = g.len() - head.len();
        assert forall|k: int| 0 <= k < head.len() implies g.skip(d)[k] == head[k] by {
            assert(tail[d + k + 1] == x[n - tail.len() + (d + k + 1)]);
            if k > 0 {
                assert(f[k - 1] == x[n - f.len() + (k - 1)]);
            } else {
                assert(x[a.len() as int] == ' ');
            }
        }
        assert(g.skip(d) =~= head);
    }
}

/// A name with a legal form behind it is spaced as the name with the
/// spaced form behind it.
proof fn spaced_with_form(s: Seq<char>, k: int)
    requires
        0 <= k < legal_suffixes().len(),
    ensures
        spaced(s + " "@ + legal_suffixes()[k]) == with_form(spaced(s), spaced_forms()[k]),
{
    reveal_strlit(" ");
    let f = legal_suffixes()[k];
    form_is_spaced(k);
    forms_do_not_nest(k, k);
    let u = s + " "@;
    assert(u =~= s.push(' '));
    assert(u.drop_last() =~= s);
    let p = spaced_open(u);
    assert(awaits_word(p));
    spaced_joins(u, f);
    let q = spaced_open(f);
    let a = spaced(s);
    assert(p =~= if a.len() == 0 {
        a
    } else {
        a + seq![' ']
    }) by {
        spaced_has_single_spaces(s);
    }
    assert((p + q).last() == q.last());
    if q.last() == ' ' {
        assert((p + q).drop_last() =~= p + q.drop_last());
    }
    assert(spaced(u + f) =~= p + spaced(f));
    assert(p + spaced(f) =~= with_form(a, spaced(f)));
}

/// Spaces stand singly in a name that is spaced so far, and not at its
/// front.
proof fn spaced_has_single_spaces(s: Seq<char>)
    ensures
        ({
            let t = spaced_open(s);
            &&& t.len() > 0 ==> t[0] != ' '
            &&& t.len() > 1 && t.last() == ' ' ==> t[t.len() - 2] != ' '
        }),
    decreases s.len(),
{
    if s.len() > 0 {
        spaced_has_single_spaces(s.drop_last());
        if name_letter(s.last()) {
            assert(ascii_lower_char(s.last()) != ' ');
        }
    }
}

/// A legal form behind a name, in letters of any case, does not matter to
/// its key.
pub proof fn key_ignores_legal_form(s: Seq<char>, form: Seq<char>, k: int)
    requires
        0 <= k < legal_suffixes().len(),
        ascii_lower(form) == legal_suffixes()[k],
    ensures
        name_key(s + " "@ + form) == name_key(s),
{
    reveal_strlit(" ");
    let x = s + " "@ + form;
    let small = ascii_lower(s);
    key_ignores_case(x);
    key_ignores_case(s);
    assert(ascii_lower(x) =~= small + " "@ + legal_suffixes()[k]);
    spaced_with_form(small, k);
    let a = spaced(small);
    form_is_stripped(a, k, 0);
    forms_do_not_nest(k, k);
    assert(with_form(a, spaced_forms()[k]).len() > a.len());
}

/// A name's manufacturer, as displayed and as grouped.
#[derive(Debug)]
pub struct ManufacturerName {
    /// As written, without white space at its ends.
    pub display: String,
    /// The key.
    pub key: String,
}

/// Whether a character is a letter or a digit.
fn is_name_letter(c: char) -> (r: bool)
    ensures
        r == name_letter(c),
{
    is_alphanumeric(c)
}

/// A name in small letters, its words set apart by single spaces.
pub fn suffix_canonical_form(s: &str) -> (r: String)
    ensures
        r@ == spaced(s@),
{
    let cs: Vec<char> = chars_of(s);
    let mut out: Vec<char> = Vec::new();
    let mut i: usize = 0;
    proof {
        assert(s@.take(0) =~= Seq::empty());
        assert(spaced_open(s@.take(0)) =~= Seq::empty());
    }
    while i < cs.len()
        invariant
            i <= cs@.len(),
            cs@ == s@,
            out@ == spaced_open(s@.take(i as int)),
        decreases cs@.len() - i,
    {
        let c: char = cs[i];
        proof {
            assert(s@.take(i + 1).drop_last() =~= s@.take(i as int));
            assert(s@.take(i + 1).last() == c);
        }
        if is_name_letter(c) {
            out.push(to_ascii_lower_char(c));
        } else if out.len() > 0 && out[out.len() - 1] != ' ' {
            out.push(' ');
        }
        i += 1;
    }
    let mut n: usize = out.len();
    if n > 0 && out[n - 1] == ' ' {
        n = n - 1;
    }
    proof {
        assert(s@.take(s@.len() as int) =~= s@);
        assert(out@.subrange(0, n as int) =~= spaced(s@));
    }
    string_of_range(&out, 0, n)
}

/// A spaced name without one legal form at its end.
fn strip_suffix(s: &str, suffix: &str) -> (r: String)
    ensures
        r@ == without_suffix(s@, suffix@),
{
    let x: Vec<char> = chars_of(s);
    let mut tail: Vec<char> = Vec::new();
    tail.push(' ');
    let y: Vec<char> = chars_of(suffix);
    let mut i: usize = 0;
    proof {
        assert(tail@ =~= seq![' '] + suffix@.take(0));
    }
    while i < y.len()
        invariant
            i <= y@.len(),
            y@ == suffix@,
            tail@ == seq![' '] + suffix@.take(i as int),
        decreases y@.len() - i,
    {
        proof {
            assert((seq![' '] + suffix@.take(i as int)).push(y@[i as int]) =~= seq![' ']
                + suffix@.take(i + 1));
        }
        tail.push(y[i]);
        i += 1;
    }
    proof {
        assert(suffix@.take(suffix@.len() as int) =~= suffix@);
    }
    if y.len() == 0 {
        return crate::text::owned(s);
    }
    if x.len() >= tail.len() {
        let cut: usize = x.len() - tail.len();
        proof {
            assert(s@.subrange(cut as int, s@.len() as int) =~= s@.skip(cut as int));
            assert(s@.subrange(0, cut as int) =~= s@.take(cut as int));
        }
        if crate::text::stands_at(&x, &tail, cut) {
            return string_of_range(&x, 0, cut);
        }
    }
    if same_text(s, suffix) {
        String::new()
    } else {
        crate::text::owned(s)
    }
}

/// A shorter text has fewer characters.
fn text_len(s: &str) -> (r: usize)
    ensures
        r == s@.len(),
{
    chars_of(s).len()
}

/// A spaced name without all the legal forms that it ends in.
fn strip_suffixes(name: &str) -> (r: String)
    ensures
        r@ == stripped(name@),
{
    let mut s: String = crate::text::owned(name);
    loop
        invariant
            stripped(name@) == stripped(s@),
        decreases s@.len(),
    {
        let n: usize = text_len(s.as_str());
        let ghost before = s@;
        let mut found: Option<String> = None;
        let mut i: usize = 0;
        while i < 40 && found.is_none()
            invariant
                i <= 40,
                n == before.len(),
                s@ == before,
                legal_suffixes().len() == 40,
                match found {
                    Some(t) => t@ == stripped_from(before, 0) && t@.len() < before.len(),
                    None => stripped_from(before, 0) == stripped_from(before, i as int),
                },
            decreases 40 - i,
        {
            let form: String = suffix_canonical_form(legal_suffix(i));
            let t: String = strip_suffix(s.as_str(), form.as_str());
            if text_len(t.as_str()) < n {
                found = Some(t);
            }
            i += 1;
        }
        match found {
            Some(t) => {
                s = t;
            },
            None => {
                proof {
                    assert(stripped_from(before, 40) == before);
                }
                return s;
            },
        }
    }
}

/// The single letters at the front, glued, do not depend on what follows.
proof fn letter_run_from(ws: Seq<Seq<char>>, i: int, j: int)
    requires
        0 <= i <= j <= ws.len(),
        forall|k: int| i <= k < j ==> (#[trigger] ws[k]).len() == 1,
        j < ws.len() ==> ws[j].len() != 1,
    ensures
        letter_run(ws.skip(i)) == j - i,
    decreases j - i,
{
    let t = ws.skip(i);
    if i < j {
        assert(t[0] == ws[i]);
        assert(t.drop_first() =~= ws.skip(i + 1));
        letter_run_from(ws, i + 1, j);
    } else if j < ws.len() {
        assert(t[0] == ws[j]);
    }
}

/// One more word behind those spelled so far.
proof fn spelled_push(ws: Seq<Seq<char>>, x: Seq<char>)
    ensures
        spelled(ws.push(x)) == if spelled(ws).len() == 0 {
            spelled(ws) + x
        } else {
            spelled(ws) + seq![' '] + x
        },
{
    assert(ws.push(x).drop_last() =~= ws);
}

/// Adds a word to those spelled so far.
fn spell(out: &mut String, word: &str)
    ensures
        final(out)@ == if old(out)@.len() == 0 {
            old(out)@ + word@
        } else {
            old(out)@ + seq![' '] + word@
        },
{
    let ghost before = out@;
    if !out.as_str().is_empty() {
        out.push(' ');
        proof {
            assert(out@ =~= before + seq![' ']);
        }
    }
    push_text(out, word);
}

/// The words of a text with every run of single letters made one word,
/// set apart by single spaces.
fn collapse_single_letter_runs(s: &str) -> (r: String)
    ensures
        r@ == spelled(acronyms_joined(words(s@))),
{
    let tokens: Vec<String> = split_words(s);
    let ghost ws = texts(tokens@);
    let mut out: String = String::new();
    let ghost mut done: Seq<Seq<char>> = Seq::empty();
    let mut i: usize = 0;
    proof {
        assert(ws.skip(0) =~= ws);
        assert(done + acronyms_joined(ws) =~= acronyms_joined(ws));
        assert(spelled(done) =~= Seq::empty());
    }
    while i < tokens.len()
        invariant
            i <= tokens@.len(),
            ws == texts(tokens@),
            acronyms_joined(ws) == done + acronyms_joined(ws.skip(i as int)),
            out@ == spelled(done),
        decreases tokens@.len() - i,
    {
        let mut j: usize = i;
        let mut run: String = String::new();
        let ghost rest = ws.skip(i as int);
        proof {
            assert(rest.take(0) =~= Seq::empty());
            assert(run@ =~= glued(rest.take(0)));
        }
        while j < tokens.len() && text_len(tokens[j].as_str()) == 1
            invariant
                i <= j <= tokens@.len(),
                ws == texts(tokens@),
                rest == ws.skip(i as int),
                forall|k: int| i <= k < j ==> (#[trigger] ws[k]).len() == 1,
                run@ == glued(rest.take(j - i)),
            decreases tokens@.len() - j,
        {
            proof {
                assert(ws[j as int] == tokens@[j as int]@);
                assert(rest.take(j + 1 - i).drop_last() =~= rest.take(j - i));
                assert(rest.take(j + 1 - i).last() == ws[j as int]);
            }
            push_text(&mut run, tokens[j].as_str());
            j += 1;
        }
        proof {
            if j < tokens@.len() {
                assert(ws[j as int] == tokens@[j as int]@);
            }
            letter_run_from(ws, i as int, j as int);
            assert(rest[0] == ws[i as int]);
            assert(ws[i as int] == tokens@[i as int]@);
        }
        let ghost before = done;
        if j - i >= 2 {
            proof {
                let x = glued(rest.take(j - i));
                spelled_push(before, x);
                assert(rest.skip(j - i) =~= ws.skip(j as int));
                done = before.push(x);
                assert(before + (seq![x] + acronyms_joined(ws.skip(j as int))) =~= before.push(x)
                    + acronyms_joined(ws.skip(j as int)));
            }
            spell(&mut out, run.as_str());
            i = j;
        } else {
            proof {
                let x = ws[i as int];
                spelled_push(before, x);
                assert(rest.skip(1) =~= ws.skip(i + 1));
                done = before.push(x);
                assert(before + (seq![x] + acronyms_joined(ws.skip(i + 1))) =~= before.push(x)
                    + acronyms_joined(ws.skip(i + 1)));
            }
            spell(&mut out, tokens[i].as_str());
            i += 1;
        }
    }
    proof {
        assert(ws.skip(ws.len() as int) =~= Seq::empty());
        assert(acronyms_joined(ws.skip(ws.len() as int)) =~= Seq::empty());
        assert(done + Seq::<Seq<char>>::empty() =~= done);
    }
    out
}

/// The key of a manufacturer name.
pub fn canonical_key(input: &str) -> (r: String)
    ensures
        r@ == name_key(input@),
{
    let collapsed: String = suffix_canonical_form(input);
    let bare: String = strip_suffixes(collapsed.as_str());
    let joined: String = collapse_single_letter_runs(bare.as_str());
    trimmed(joined.as_str())
}

/// A manufacturer as written in a file.
pub fn normalise(raw: &str) -> (r: ManufacturerName)
    ensures
        r.display@ == trim(raw@),
        r.key@ == name_key(raw@),
        trim(raw@).len() == 0 ==> r.display@.len() == 0 && r.key@.len() == 0,
{
    let display: String = trimmed(raw);
    proof {
        key_ignores_white_space_around(raw@);
        if trim(raw@).len() == 0 {
            blank_names_have_no_key(raw@);
        }
    }
    let key: String = canonical_key(display.as_str());
    ManufacturerName { display, key }
}

/// The legal forms that do not matter to a key.
pub proof fn legal_forms_are_these()
    ensures
        legal_suffixes().len() == 40,
        legal_suffixes().contains("s.a."@),
        legal_suffixes().contains("s.a"@),
        legal_suffixes().contains("sa"@),
        legal_suffixes().contains("gmbh"@),
        legal_suffixes().contains("g.m.b.h."@),
        legal_suffixes().contains("ag"@),
        legal_suffixes().contains("a.g."@),
        legal_suffixes().contains("ltd"@),
        legal_suffixes().contains("ltd."@),
        legal_suffixes().contains("limited"@),
        legal_suffixes().contains("inc"@),
        legal_suffixes().contains("inc."@),
        legal_suffixes().contains("incorporated"@),
        legal_suffixes().contains("llc"@),
        legal_suffixes().contains("l.l.c."@),
        legal_suffixes().contains("co"@),
        legal_suffixes().contains("co."@),
        legal_suffixes().contains("company"@),
        legal_suffixes().contains("kg"@),
        legal_suffixes().contains("k.g."@),
        legal_suffixes().contains("ohg"@),
        legal_suffixes().contains("o.h.g."@),
        legal_suffixes().contains("se"@),
        legal_suffixes().contains("plc"@),
        legal_suffixes().contains("n.v."@),
        legal_suffixes().contains("nv"@),
        legal_suffixes().contains("b.v."@),
        legal_suffixes().contains("bv"@),
        legal_suffixes().contains("s.r.l."@),
        legal_suffixes().contains("srl"@),
        legal_suffixes().contains("s.p.a."@),
        legal_suffixes().contains("spa"@),
        legal_suffixes().contains("s.l."@),
        legal_suffixes().contains("sl"@),
        legal_suffixes().contains("s.l.u."@),
        legal_suffixes().contains("slu"@),
        legal_suffixes().contains("oy"@),
        legal_suffixes().contains("ab"@),
        legal_suffixes().contains("as"@),
        legal_suffixes().contains("a.s."@),
{
    let s = legal_suffixes();
    assert(s[0] == "s.a."@);
    assert(s[1] == "s.a"@);
    assert(s[2] == "sa"@);
    assert(s[3] == "gmbh"@);
    assert(s[4] == "g.m.b.h."@);
    assert(s[5] == "ag"@);
    assert(s[6] == "a.g."@);
    assert(s[7] == "ltd"@);
    assert(s[8] == "ltd."@);
    assert(s[9] == "limited"@);
    assert(s[10] == "inc"@);
    assert(s[11] == "inc."@);
    assert(s[12] == "incorporated"@);
    assert(s[13] == "llc"@);
    assert(s[14] == "l.l.c."@);
    assert(s[15] == "co"@);
    assert(s[16] == "co."@);
    assert(s[17] == "company"@);
    assert(s[18] == "kg"@);
    assert(s[19] == "k.g."@);
    assert(s[20] == "ohg"@);
    assert(s[21] == "o.h.g."@);
    assert(s[22] == "se"@);
    assert(s[23] == "plc"@);
    assert(s[24] == "n.v."@);
    assert(s[25] == "nv"@);
    assert(s[26] == "b.v."@);
    assert(s[27] == "bv"@);
    assert(s[28] == "s.r.l."@);
    assert(s[29] == "srl"@);
    assert(s[30] == "s.p.a."@);
    assert(s[31] == "spa"@);
    assert(s[32] == "s.l."@);
    assert(s[33] == "sl"@);
    assert(s[34] == "s.l.u."@);
    assert(s[35] == "slu"@);
    assert(s[36] == "oy"@);
    assert(s[37] == "ab"@);
    assert(s[38] == "as"@);
    assert(s[39] == "a.s."@);
}

/// Whether a text is a word of small ASCII letters and digits.
pub open spec fn plain_word(w: Seq<char>) -> bool {
    w.len() > 0 && forall|i: int|
        0 <= i < w.len() ==> 'a' <= #[trigger] w[i] <= 'z' || '0' <= w[i] <= '9'
}

proof fn plain_words_are_spaced(w: Seq<char>)
    requires
        forall|i: int| 0 <= i < w.len() ==> 'a' <= #[trigger] w[i] <= 'z' || '0' <= w[i] <= '9',
    ensures
        spaced_open(w) == w,
    decreases w.len(),
{
    if w.len() > 0 {
        assert forall|i: int| 0 <= i < w.drop_last().len() implies 'a' <= #[trigger] w.drop_last()[i]
            <= 'z' || '0' <= w.drop_last()[i] <= '9' by {
            assert(w.drop_last()[i] == w[i]);
        }
        plain_words_are_spaced(w.drop_last());
        let c = w[w.len() - 1];
        assert(name_letter(c) && ascii_lower_char(c) == c);
        assert(w.drop_last().push(c) =~= w);
    } else {
        assert(spaced_open(w) =~= w);
    }
}

proof fn spaceless_is_not_stripped(s: Seq<char>, i: int)
    requires
        0 <= i <= legal_suffixes().len(),
        forall|k: int| 0 <= k < s.len() ==> #[trigger] s[k] != ' ',
        forall|k: int|
            0 <= k < legal_suffixes().len() ==> s != spaced(#[trigger] legal_suffixes()[k]),
    ensures
        stripped_from(s, i) == s,
    decreases legal_suffixes().len() - i,
{
    if i < legal_suffixes().len() {
        let f = spaced(legal_suffixes()[i]);
        let tail = seq![' '] + f;
        if s.len() >= tail.len() && s.skip(s.len() - tail.len()) == tail {
            assert(tail[0] == ' ');
            assert(s.skip(s.len() - tail.len())[0] == s[s.len() - tail.len()]);
        }
        assert(s != f);
        spaceless_is_not_stripped(s, i + 1);
    }
}

/// A word of small letters and digits that is no legal form is its own
/// key.
#[verifier::spinoff_prover]
pub proof fn plain_words_are_their_own_keys(w: Seq<char>)
    requires
        plain_word(w),
        forall|k: int|
            0 <= k < legal_suffixes().len() ==> w != spaced(#[trigger] legal_suffixes()[k]),
    ensures
        name_key(w) == w,
{
    plain_words_are_spaced(w);
    assert(spaced(w) == w);
    assert forall|k: int| 0 <= k < w.len() implies #[trigger] w[k] != ' ' by {}
    spaceless_is_not_stripped(w, 0);
    assert(stripped(w) == w);
    single_word(w);
    let ws = seq![w];
    assert(ws.drop_first() =~= Seq::empty());
    assert(letter_run(ws) <= 1) by {
        assert(letter_run(ws.drop_first()) == 0);
    }
    assert(ws.skip(1) =~= Seq::empty());
    assert(acronyms_joined(ws.skip(1)) =~= Seq::empty());
    assert(acronyms_joined(ws) =~= ws);
    assert(ws.drop_last() =~= Seq::empty());
    assert(spelled(ws.drop_last()) =~= Seq::empty());
    assert(spelled(ws) =~= w);
    assert(!white_space(w[0]) && !white_space(w[w.len() - 1]));
    assert(trim(w) == w);
}

proof fn single_word(w: Seq<char>)
    requires
        plain_word(w),
    ensures
        words(w) == seq![w],
{
    assert forall|k: int| 0 <= k < w.len() implies !white_space(#[trigger] w[k]) by {}
    crate::text::first_words_end_at_white_space(w, Seq::empty());
    assert(w + Seq::<char>::empty() =~= w);
    assert(trim_front(w) == w);
    assert(w.skip(w.len() as int) =~= Seq::empty());
    assert(trim_front(Seq::<char>::empty()).len() == 0);
    assert(words(Seq::<char>::empty()) =~= Seq::empty());
    assert(words(w) =~= seq![w]);
}

/// Single letters with points between them are one word of the key.
pub proof fn initials_are_one_word(a: char, b: char)
    requires
        'a' <= a <= 'z',
        'a' <= b <= 'z',
        forall|k: int|
            0 <= k < legal_suffixes().len() ==> seq![a, ' ', b] != spaced(
                #[trigger] legal_suffixes()[k],
            ),
    ensures
        name_key(seq![a, '.', b]) == seq![a, b],
{
    let t = seq![a, ' ', b];
    initials_are_spaced(a, b);
    initials_are_not_stripped(a, b, 0);
    assert(stripped(t) == t);
    initials_are_words(a, b);
    initials_are_glued(a, b);
    let one = seq![seq![a, b]];
    assert(one.drop_last() =~= Seq::empty());
    assert(spelled(one.drop_last()) =~= Seq::empty());
    assert(spelled(one) =~= seq![a, b]);
    let k = seq![a, b];
    assert(!white_space(k[0]) && !white_space(k[1]));
    assert(trim(k) == k);
}

proof fn initials_are_spaced(a: char, b: char)
    requires
        'a' <= a <= 'z',
        'a' <= b <= 'z',
    ensures
        spaced(seq![a, '.', b]) == seq![a, ' ', b],
{
    let s = seq![a, '.', b];
    assert(s.drop_last() =~= seq![a, '.']);
    assert(seq![a, '.'].drop_last() =~= seq![a]);
    assert(seq![a].drop_last() =~= Seq::empty());
    assert(spaced_open(Seq::<char>::empty()) =~= Seq::empty());
    assert(name_letter(a) && ascii_lower_char(a) == a);
    assert(name_letter(b) && ascii_lower_char(b) == b);
    assert(!name_letter('.'));
    assert(spaced_open(seq![a]) =~= seq![a]);
    assert(spaced_open(seq![a, '.']) =~= seq![a, ' ']);
    assert(spaced_open(s) =~= seq![a, ' ', b]);
}

proof fn initials_are_words(a: char, b: char)
    requires
        'a' <= a <= 'z',
        'a' <= b <= 'z',
    ensures
        words(seq![a, ' ', b]) == seq![seq![a], seq![b]],
{
    let t = seq![a, ' ', b];
    crate::text::first_words_end_at_white_space(seq![a], seq![' ', b]);
    assert(seq![a] + seq![' ', b] =~= t);
    assert(trim_front(t) == t);
    assert(crate::text::leading_word(t) == seq![a]);
    let u = t.skip(1);
    single_word(seq![b]);
    assert(u =~= seq![' ', b]);
    assert(u.drop_first() =~= seq![b]);
    assert(trim_front(seq![b]) == seq![b]);
    assert(trim_front(u) == seq![b]);
    crate::text::first_words_end_at_white_space(seq![b], Seq::empty());
    assert(seq![b] + Seq::<char>::empty() =~= seq![b]);
    assert(crate::text::leading_word(seq![b]) == seq![b]);
    assert(seq![b].skip(1) =~= Seq::empty());
    assert(trim_front(Seq::<char>::empty()).len() == 0);
    assert(words(Seq::<char>::empty()) =~= Seq::empty());
    assert(words(u) =~= seq![seq![b]]);
    assert(words(t) =~= seq![seq![a]] + words(u));
    assert(words(t) =~= seq![seq![a], seq![b]]);
}

proof fn initials_are_glued(a: char, b: char)
    ensures
        acronyms_joined(seq![seq![a], seq![b]]) == seq![seq![a, b]],
{
    let ws = seq![seq![a], seq![b]];
    assert(ws.drop_first() =~= seq![seq![b]]);
    assert(seq![seq![b]].drop_first() =~= Seq::empty());
    assert(letter_run(seq![seq![b]].drop_first()) == 0);
    assert(letter_run(seq![seq![b]]) == 1);
    assert(letter_run(ws) == 2);
    assert(ws.take(2) =~= ws);
    assert(ws.skip(2) =~= Seq::empty());
    assert(ws.drop_last() =~= seq![seq![a]]);
    assert(seq![seq![a]].drop_last() =~= Seq::empty());
    assert(glued(seq![seq![a]].drop_last()) =~= Seq::empty());
    assert(glued(seq![seq![a]]) =~= seq![a]);
    assert(glued(ws) =~= seq![a, b]);
    assert(acronyms_joined(ws.skip(2)) =~= Seq::empty());
    assert(acronyms_joined(ws) =~= seq![seq![a, b]]);
}

proof fn initials_are_not_stripped(a: char, b: char, i: int)
    requires
        'a' <= a <= 'z',
        'a' <= b <= 'z',
        0 <= i <= legal_suffixes().len(),
        forall|k: int|
            0 <= k < legal_suffixes().len() ==> seq![a, ' ', b] != spaced(
                #[trigger] legal_suffixes()[k],
            ),
    ensures
        stripped_from(seq![a, ' ', b], i) == seq![a, ' ', b],
    decreases legal_suffixes().len() - i,
{
    let s = seq![a, ' ', b];
    if i < legal_suffixes().len() {
        let f = spaced(legal_suffixes()[i]);
        let tail = seq![' '] + f;
        assert(s != f);
        forms_have_shape(i);
        form_is_spaced(i);
        if s.len() >= tail.len() && s.skip(s.len() - tail.len()) == tail {
            assert(tail[0] == ' ');
            assert(s.skip(s.len() - tail.len())[0] == s[s.len() - tail.len()]);
        }
        initials_are_not_stripped(a, b, i + 1);
    }
}

} // verus!
