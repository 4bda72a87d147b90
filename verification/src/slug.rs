//! Manufacturer names by the slug of a subdomain.

use crate::doc::{doc_views, DocView, LuminaireDoc};
use crate::text::{
    ascii_lower, ascii_lower_char, chars_of, first_word, same_text, string_of_range, to_ascii_lower,
    to_ascii_lower_char, trim, trimmed, word_of,
};
use vstd::prelude::*;

verus! {

/// Whether a slug separates words at `c`: a hyphen, an underscore or
/// ASCII white space.
pub open spec fn slug_gap(c: char) -> bool {
    c == '-' || c == '_' || c == ' ' || (9 <= c as u32 && c as u32 <= 13)
}

/// `s` in small ASCII letters, with a single space for every run of
/// gaps behind a word.
pub open spec fn slug_words(s: Seq<char>) -> Seq<char>
    decreases s.len(),
{
    if s.len() == 0 {
        Seq::empty()
    } else {
        let front = slug_words(s.drop_last());
        if !slug_gap(s.last()) {
            front.push(ascii_lower_char(s.last()))
        } else if front.len() == 0 || front.last() == ' ' {
            front
        } else {
            front.push(' ')
        }
    }
}

/// `s` as slugs are compared: small ASCII letters, words set apart by
/// single spaces, no space at either end.
pub open spec fn folded_slug(s: Seq<char>) -> Seq<char> {
    let words = slug_words(s);
    if words.len() > 0 && words.last() == ' ' {
        words.drop_last()
    } else {
        words
    }
}

/// Whether a text is as folding leaves it.
spec fn is_folded(s: Seq<char>) -> bool {
    &&& forall|i: int|
        0 <= i < s.len() ==> #[trigger] s[i] == ' ' || (!slug_gap(s[i]) && ascii_lower_char(s[i])
            == s[i])
    &&& forall|i: int| 0 <= i < s.len() - 1 && #[trigger] s[i] == ' ' ==> s[i + 1] != ' '
    &&& s.len() > 0 ==> s[0] != ' '
}

proof fn slug_words_folded(s: Seq<char>)
    ensures
        is_folded(slug_words(s)),
    decreases s.len(),
{
    if s.len() > 0 {
        let front = slug_words(s.drop_last());
        slug_words_folded(s.drop_last());
        let out = slug_words(s);
        assert forall|i: int| 0 <= i < out.len() - 1 && #[trigger] out[i] == ' ' implies out[i + 1]
            != ' ' by {
            assert(out[i] == front[i]);
            if i + 1 < front.len() {
                assert(out[i + 1] == front[i + 1]);
            }
        }
        assert forall|i: int| 0 <= i < out.len() implies #[trigger] out[i] == ' ' || (!slug_gap(
            out[i],
        ) && ascii_lower_char(out[i]) == out[i]) by {
            if i < front.len() {
                assert(out[i] == front[i]);
            }
        }
    }
}

proof fn folded_is_kept(s: Seq<char>)
    requires
        is_folded(s),
    ensures
        slug_words(s) == s,
    decreases s.len(),
{
    if s.len() > 0 {
        let front = s.drop_last();
        assert(is_folded(front)) by {
            assert forall|i: int| 0 <= i < front.len() implies #[trigger] front[i] == ' ' || (
            !slug_gap(front[i]) && ascii_lower_char(front[i]) == front[i]) by {
                assert(front[i] == s[i]);
            }
            assert forall|i: int| 0 <= i < front.len() - 1 && #[trigger] front[i] == ' ' implies front[
            i + 1] != ' ' by {
                assert(front[i] == s[i]);
                assert(front[i + 1] == s[i + 1]);
            }
        }
        folded_is_kept(front);
        let last = s[s.len() - 1];
        if last == ' ' {
            if front.len() > 0 {
                assert(s[s.len() - 2] != ' ');
                assert(front.last() == s[s.len() - 2]);
            }
        }
        assert(s =~= front.push(last));
    } else {
        assert(slug_words(s) =~= s);
    }
}

/// Folding a folded text changes nothing.
pub proof fn folding_is_idempotent(s: Seq<char>)
    ensures
        folded_slug(folded_slug(s)) == folded_slug(s),
{
    slug_words_folded(s);
    let words = slug_words(s);
    let out = folded_slug(s);
    assert(is_folded(out)) by {
        assert forall|i: int| 0 <= i < out.len() implies #[trigger] out[i] == ' ' || (!slug_gap(
            out[i],
        ) && ascii_lower_char(out[i]) == out[i]) by {
            assert(out[i] == words[i]);
        }
        assert forall|i: int| 0 <= i < out.len() - 1 && #[trigger] out[i] == ' ' implies out[i + 1]
            != ' ' by {
            assert(out[i] == words[i]);
            assert(out[i + 1] == words[i + 1]);
        }
    }
    folded_is_kept(out);
    if out.len() > 0 && out.last() == ' ' {
        assert(words[out.len() - 1] == ' ');
        assert(words[out.len() as int] != ' ');
    }
}

/// The name that a slug stands for by convention, where its letters
/// cannot be had from the name.
pub open spec fn alias_of(needle: Seq<char>) -> Option<Seq<char>> {
    if needle == "als"@ || needle == "a-l-s"@ {
        Some("A.L.S."@)
    } else if needle == "nobile"@ {
        Some("nobil\u{e9}"@)
    } else {
        None
    }
}

/// Whether the whole name folds to the folded slug.
pub open spec fn whole_name_meets(name: Seq<char>, needle: Seq<char>) -> bool {
    folded_slug(name) == folded_slug(needle)
}

/// Whether the first word of the name folds to the folded slug.
pub open spec fn first_word_meets(name: Seq<char>, needle: Seq<char>) -> bool {
    first_word(name).len() > 0 && folded_slug(first_word(name)) == folded_slug(needle)
}

/// Whether the name is the alias of the slug.
pub open spec fn alias_meets(name: Seq<char>, needle: Seq<char>) -> bool {
    alias_of(needle) == Some(name)
}

/// The rules by which a slug finds a manufacturer, in their order.
#[derive(Clone, Copy, PartialEq, Eq, Debug, Structural)]
pub enum SlugRule {
    /// The whole name.
    Whole,
    /// The first word of the name.
    FirstWord,
    /// The alias.
    Alias,
}

/// Whether a name meets a slug by a rule.
pub open spec fn rule_meets(rule: SlugRule, name: Seq<char>, needle: Seq<char>) -> bool {
    match rule {
        SlugRule::Whole => whole_name_meets(name, needle),
        SlugRule::FirstWord => first_word_meets(name, needle),
        SlugRule::Alias => alias_meets(name, needle),
    }
}

/// The manufacturer of the first document at or behind `from` that meets
/// the slug by a rule.
pub open spec fn first_meeting(
    docs: Seq<DocView>,
    rule: SlugRule,
    needle: Seq<char>,
    from: int,
) -> Option<Seq<char>>
    decreases docs.len() - from,
{
    if from < 0 || from >= docs.len() {
        None
    } else if rule_meets(rule, docs[from].manufacturer, needle) {
        Some(docs[from].manufacturer)
    } else {
        first_meeting(docs, rule, needle, from + 1)
    }
}

/// The manufacturer that a slug names: by its whole name, else by the
/// first word of its name, else by its alias. A blank slug names none.
pub open spec fn manufacturer_of(docs: Seq<DocView>, slug: Seq<char>) -> Option<Seq<char>> {
    let needle = ascii_lower(trim(slug));
    if needle.len() == 0 {
        None
    } else if first_meeting(docs, SlugRule::Whole, needle, 0) is Some {
        first_meeting(docs, SlugRule::Whole, needle, 0)
    } else if first_meeting(docs, SlugRule::FirstWord, needle, 0) is Some {
        first_meeting(docs, SlugRule::FirstWord, needle, 0)
    } else {
        first_meeting(docs, SlugRule::Alias, needle, 0)
    }
}

proof fn first_meeting_is_indexed(
    docs: Seq<DocView>,
    rule: SlugRule,
    needle: Seq<char>,
    from: int,
)
    requires
        first_meeting(docs, rule, needle, from) is Some,
    ensures
        exists|i: int|
            0 <= i < docs.len() && Some((#[trigger] docs[i]).manufacturer) == first_meeting(
                docs,
                rule,
                needle,
                from,
            ),
    decreases docs.len() - from,
{
    if !rule_meets(rule, docs[from].manufacturer, needle) {
        first_meeting_is_indexed(docs, rule, needle, from + 1);
    } else {
        assert(Some(docs[from].manufacturer) == first_meeting(docs, rule, needle, from));
    }
}

/// A slug names a manufacturer of the index or none.
pub proof fn slug_names_indexed_manufacturer(docs: Seq<DocView>, slug: Seq<char>)
    requires
        manufacturer_of(docs, slug) is Some,
    ensures
        exists|i: int|
            0 <= i < docs.len() && Some((#[trigger] docs[i]).manufacturer) == manufacturer_of(
                docs,
                slug,
            ),
{
    let needle = ascii_lower(trim(slug));
    if first_meeting(docs, SlugRule::Whole, needle, 0) is Some {
        first_meeting_is_indexed(docs, SlugRule::Whole, needle, 0);
    } else if first_meeting(docs, SlugRule::FirstWord, needle, 0) is Some {
        first_meeting_is_indexed(docs, SlugRule::FirstWord, needle, 0);
    } else {
        first_meeting_is_indexed(docs, SlugRule::Alias, needle, 0);
    }
}

proof fn first_meeting_is_first(
    docs: Seq<DocView>,
    rule: SlugRule,
    needle: Seq<char>,
    from: int,
)
    requires
        0 <= from <= docs.len(),
    ensures
        match first_meeting(docs, rule, needle, from) {
            Some(m) => exists|i: int|
                from <= i < docs.len() && (#[trigger] docs[i]).manufacturer == m && rule_meets(
                    rule,
                    m,
                    needle,
                ) && forall|j: int|
                    from <= j < i ==> !rule_meets(rule, (#[trigger] docs[j]).manufacturer, needle),
            None => forall|i: int|
                from <= i < docs.len() ==> !rule_meets(
                    rule,
                    (#[trigger] docs[i]).manufacturer,
                    needle,
                ),
        },
    decreases docs.len() - from,
{
    if from < docs.len() {
        if rule_meets(rule, docs[from].manufacturer, needle) {
            assert(Some(docs[from].manufacturer) == first_meeting(docs, rule, needle, from));
        } else {
            first_meeting_is_first(docs, rule, needle, from + 1);
            if let Some(m) = first_meeting(docs, rule, needle, from) {
                let i = choose|i: int|
                    from + 1 <= i < docs.len() && (#[trigger] docs[i]).manufacturer == m
                        && rule_meets(rule, m, needle) && forall|j: int|
                        from + 1 <= j < i ==> !rule_meets(
                            rule,
                            (#[trigger] docs[j]).manufacturer,
                            needle,
                        );
                assert(docs[i].manufacturer == m);
            }
        }
    }
}

/// A manufacturer whose whole name folds like the slug is found before
/// all others, and the first such in the index is.
pub proof fn whole_names_go_first(docs: Seq<DocView>, slug: Seq<char>, i: int)
    requires
        0 <= i < docs.len(),
        trim(slug).len() > 0,
        folded_slug(docs[i].manufacturer) == folded_slug(ascii_lower(trim(slug))),
        forall|j: int|
            0 <= j < i ==> folded_slug((#[trigger] docs[j]).manufacturer) != folded_slug(
                ascii_lower(trim(slug)),
            ),
    ensures
        manufacturer_of(docs, slug) == Some(docs[i].manufacturer),
{
    let needle = ascii_lower(trim(slug));
    first_meeting_is_first(docs, SlugRule::Whole, needle, 0);
    assert(rule_meets(SlugRule::Whole, docs[i].manufacturer, needle));
}

/// Where no whole name folds like the slug, the first word of a name
/// may.
pub proof fn first_words_go_second(docs: Seq<DocView>, slug: Seq<char>, i: int)
    requires
        0 <= i < docs.len(),
        trim(slug).len() > 0,
        first_word(docs[i].manufacturer).len() > 0,
        folded_slug(first_word(docs[i].manufacturer)) == folded_slug(ascii_lower(trim(slug))),
        forall|j: int|
            0 <= j < docs.len() ==> folded_slug((#[trigger] docs[j]).manufacturer) != folded_slug(
                ascii_lower(trim(slug)),
            ),
        forall|j: int|
            0 <= j < i ==> folded_slug(first_word((#[trigger] docs[j]).manufacturer))
                != folded_slug(ascii_lower(trim(slug))),
    ensures
        manufacturer_of(docs, slug) == Some(docs[i].manufacturer),
{
    let needle = ascii_lower(trim(slug));
    first_meeting_is_first(docs, SlugRule::Whole, needle, 0);
    first_meeting_is_first(docs, SlugRule::FirstWord, needle, 0);
    assert(rule_meets(SlugRule::FirstWord, docs[i].manufacturer, needle));
}

/// What a slug names meets it: by the whole name, by the first word, or
/// as one of the two names whose letters a slug cannot hold. A blank slug
/// names nothing.
pub proof fn slugs_name_what_meets_them(docs: Seq<DocView>, slug: Seq<char>)
    ensures
        trim(slug).len() == 0 ==> manufacturer_of(docs, slug) is None,
        manufacturer_of(docs, slug) matches Some(m) ==> {
            let needle = ascii_lower(trim(slug));
            ||| folded_slug(m) == folded_slug(needle)
            ||| folded_slug(first_word(m)) == folded_slug(needle)
            ||| m == "A.L.S."@ && (needle == "als"@ || needle == "a-l-s"@)
            ||| m == "nobil\u{e9}"@ && needle == "nobile"@
        },
{
    let needle = ascii_lower(trim(slug));
    first_meeting_is_first(docs, SlugRule::Whole, needle, 0);
    first_meeting_is_first(docs, SlugRule::FirstWord, needle, 0);
    first_meeting_is_first(docs, SlugRule::Alias, needle, 0);
}

/// Where neither whole names nor first words meet a slug, two slugs name
/// the manufacturers whose letters they cannot hold.
pub proof fn aliases_go_last(docs: Seq<DocView>, slug: Seq<char>, i: int)
    requires
        0 <= i < docs.len(),
        forall|j: int|
            0 <= j < docs.len() ==> folded_slug((#[trigger] docs[j]).manufacturer) != folded_slug(
                ascii_lower(trim(slug)),
            ) && folded_slug(first_word(docs[j].manufacturer)) != folded_slug(
                ascii_lower(trim(slug)),
            ),
        trim(slug).len() > 0,
    ensures
        (ascii_lower(trim(slug)) == "als"@ || ascii_lower(trim(slug)) == "a-l-s"@)
            && docs[i].manufacturer == "A.L.S."@ ==> manufacturer_of(docs, slug) == Some("A.L.S."@),
        ascii_lower(trim(slug)) == "nobile"@ && docs[i].manufacturer == "nobil\u{e9}"@
            ==> manufacturer_of(docs, slug) == Some("nobil\u{e9}"@),
{
    let needle = ascii_lower(trim(slug));
    first_meeting_is_first(docs, SlugRule::Whole, needle, 0);
    first_meeting_is_first(docs, SlugRule::FirstWord, needle, 0);
    first_meeting_is_first(docs, SlugRule::Alias, needle, 0);
    if (needle == "als"@ || needle == "a-l-s"@) && docs[i].manufacturer == "A.L.S."@ {
        assert(rule_meets(SlugRule::Alias, docs[i].manufacturer, needle));
    }
    if needle == "nobile"@ && docs[i].manufacturer == "nobil\u{e9}"@ {
        reveal_strlit("nobile");
        reveal_strlit("als");
        reveal_strlit("a-l-s");
        assert("nobile"@.len() == 6 && "als"@.len() == 3 && "a-l-s"@.len() == 5);
        assert(rule_meets(SlugRule::Alias, docs[i].manufacturer, needle));
    }
}

/// Hyphens, underscores and white space are all the same to a slug, and
/// so are the cases of ASCII letters.
pub proof fn slugs_ignore_separators_and_case(s: Seq<char>, c: char)
    ensures
        slug_words(s.push('-')) == slug_words(s.push(' ')),
        slug_words(s.push('_')) == slug_words(s.push(' ')),
        slug_words(s.push('\t')) == slug_words(s.push(' ')),
        slug_words(s.push(' ').push(' ')) == slug_words(s.push(' ')),
        'A' <= c <= 'Z' ==> slug_words(s.push(c)) == slug_words(
            s.push(((c as u32) + 32) as char),
        ),
        'a' <= c <= 'z' ==> slug_words(s.push(c)) == slug_words(s).push(c),
        '0' <= c <= '9' ==> slug_words(s.push(c)) == slug_words(s).push(c),
{
    assert(s.push('-').drop_last() =~= s);
    assert(s.push('_').drop_last() =~= s);
    assert(s.push('\t').drop_last() =~= s);
    assert(s.push(' ').drop_last() =~= s);
    assert(s.push(' ').push(' ').drop_last() =~= s.push(' '));
    assert(s.push(c).drop_last() =~= s);
    let d = ((c as u32) + 32) as char;
    assert(s.push(d).drop_last() =~= s);
}

/// `s` as slugs are compared.
pub fn fold_slug(s: &str) -> (r: String)
    ensures
        r@ == folded_slug(s@),
{
    let cs: Vec<char> = chars_of(s);
    let mut out: Vec<char> = Vec::new();
    let mut i: usize = 0;
    proof {
        assert(s@.take(0) =~= Seq::empty());
        assert(slug_words(s@.take(0)) =~= Seq::empty());
    }
    while i < cs.len()
        invariant
            i <= cs@.len(),
            cs@ == s@,
            out@ == slug_words(s@.take(i as int)),
        decreases cs@.len() - i,
    {
        let c: char = cs[i];
        proof {
            assert(s@.take(i + 1).drop_last() =~= s@.take(i as int));
            assert(s@.take(i + 1).last() == c);
        }
        if c == '-' || c == '_' || c == ' ' || (9 <= c as u32 && c as u32 <= 13) {
            if out.len() > 0 && out[out.len() - 1] != ' ' {
                out.push(' ');
            }
        } else {
            out.push(to_ascii_lower_char(c));
        }
        i += 1;
    }
    let mut n: usize = out.len();
    if n > 0 && out[n - 1] == ' ' {
        n = n - 1;
    }
    proof {
        assert(s@.take(s@.len() as int) =~= s@);
        assert(out@.subrange(0, n as int) =~= folded_slug(s@));
    }
    string_of_range(&out, 0, n)
}

/// Whether a name meets a slug by a rule.
fn meets(rule: SlugRule, name: &str, needle: &str) -> (r: bool)
    ensures
        r == rule_meets(rule, name@, needle@),
{
    match rule {
        SlugRule::Whole => same_text(fold_slug(name).as_str(), fold_slug(needle).as_str()),
        SlugRule::FirstWord => {
            let first: String = word_of(name);
            !first.as_str().is_empty() && same_text(
                fold_slug(first.as_str()).as_str(),
                fold_slug(needle).as_str(),
            )
        },
        SlugRule::Alias => {
            if same_text(needle, "als") || same_text(needle, "a-l-s") {
                same_text(name, "A.L.S.")
            } else if same_text(needle, "nobile") {
                same_text(name, "nobil\u{e9}")
            } else {
                false
            }
        },
    }
}

/// The manufacturer of the first document that meets the slug by a rule.
fn find_meeting(docs: &Vec<LuminaireDoc>, rule: SlugRule, needle: &str) -> (r: Option<String>)
    ensures
        crate::text::opt_text(r) == first_meeting(doc_views(docs@), rule, needle@, 0),
{
    let mut i: usize = 0;
    while i < docs.len()
        invariant
            i <= docs@.len(),
            first_meeting(doc_views(docs@), rule, needle@, 0) == first_meeting(
                doc_views(docs@),
                rule,
                needle@,
                i as int,
            ),
        decreases docs@.len() - i,
    {
        proof {
            assert(doc_views(docs@)[i as int] == docs@[i as int]@);
        }
        if meets(rule, docs[i].manufacturer.as_str(), needle) {
            return Some(docs[i].manufacturer.clone());
        }
        i += 1;
    }
    None
}

/// The manufacturer that a slug names, spelled as in the documents.
pub fn resolve(docs: &Vec<LuminaireDoc>, slug: &str) -> (r: Option<String>)
    ensures
        crate::text::opt_text(r) == manufacturer_of(doc_views(docs@), slug@),
{
    let needle: String = to_ascii_lower(trimmed(slug).as_str());
    if needle.as_str().is_empty() {
        return None;
    }
    match find_meeting(docs, SlugRule::Whole, needle.as_str()) {
        Some(m) => return Some(m),
        None => {},
    }
    match find_meeting(docs, SlugRule::FirstWord, needle.as_str()) {
        Some(m) => return Some(m),
        None => {},
    }
    find_meeting(docs, SlugRule::Alias, needle.as_str())
}

} // verus!
