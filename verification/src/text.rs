//! Text as sequences of characters: the order, the searches and the
//! rewritings that the other modules share.

use vstd::prelude::*;

verus! {

/// `String::push` appends the character to the end of the string.
pub assume_specification[ String::push ](s: &mut String, c: char)
    ensures
        final(s)@ == old(s)@.push(c),
;

/// What `char::is_whitespace` says of a character: whether it has the
/// Unicode property `White_Space`.
pub uninterp spec fn unicode_whitespace(c: char) -> bool;

/// What `char::is_alphanumeric` says of a character.
pub uninterp spec fn unicode_alphanumeric(c: char) -> bool;

/// The characters that `char::to_lowercase` yields for a character.
pub uninterp spec fn unicode_char_lower(c: char) -> Seq<char>;

/// The text that `str::to_lowercase` yields for a text.
pub uninterp spec fn unicode_lower(s: Seq<char>) -> Seq<char>;

/// Calls `char::is_whitespace`. Among the ASCII characters these are
/// the tab, the line feed, the vertical tab, the form feed, the
/// carriage return and the space.
#[verifier::external_body]
pub(crate) fn is_whitespace(c: char) -> (r: bool)
    ensures
        r == unicode_whitespace(c),
        (c as u32) < 128 ==> r == (c == ' ' || (9 <= c as u32 && c as u32 <= 13)),
{
    c.is_whitespace()
}

/// Calls `char::is_alphanumeric`. Among the ASCII characters these are
/// the letters and the digits. White space is neither alphabetic nor
/// numeric.
#[verifier::external_body]
pub(crate) fn is_alphanumeric(c: char) -> (r: bool)
    ensures
        r == unicode_alphanumeric(c),
        (c as u32) < 128 ==> r == ascii_alphanumeric(c),
        r ==> !unicode_whitespace(c),
{
    c.is_alphanumeric()
}

/// Calls `char::to_lowercase` and collects what it yields.
#[verifier::external_body]
pub(crate) fn char_lowercase(c: char) -> (r: Vec<char>)
    ensures
        r@ == unicode_char_lower(c),
{
    c.to_lowercase().collect()
}

/// Calls `str::to_lowercase`. A text of ASCII characters is lowered
/// letter by letter.
#[verifier::external_body]
pub(crate) fn lowercase(s: &str) -> (r: String)
    ensures
        r@ == unicode_lower(s@),
        (forall|i: int| 0 <= i < s@.len() ==> (s@[i] as u32) < 128) ==> r@ == ascii_lower(s@),
{
    s.to_lowercase()
}

/// Whether `c` is white space. Among the ASCII characters these are the
/// tab, the line feed, the vertical tab, the form feed, the carriage
/// return and the space.
pub open spec fn white_space(c: char) -> bool {
    if (c as u32) < 128 {
        c == ' ' || (9 <= c as u32 && c as u32 <= 13)
    } else {
        unicode_whitespace(c)
    }
}

/// Whether `c` is an ASCII letter or digit.
pub open spec fn ascii_alphanumeric(c: char) -> bool {
    ('a' <= c && c <= 'z') || ('A' <= c && c <= 'Z') || ascii_digit(c)
}

/// Whether `c` is an ASCII digit.
pub open spec fn ascii_digit(c: char) -> bool {
    '0' <= c && c <= '9'
}

/// The number that an ASCII digit stands for.
pub open spec fn digit_value(c: char) -> nat {
    (c as u32 - '0' as u32) as nat
}

/// `c` with an ASCII capital replaced by its small letter.
pub open spec fn ascii_lower_char(c: char) -> char {
    if 'A' <= c && c <= 'Z' {
        ((c as u32 + 32) as u32) as char
    } else {
        c
    }
}

/// `s` with every ASCII capital replaced by its small letter.
pub open spec fn ascii_lower(s: Seq<char>) -> Seq<char> {
    s.map_values(|c: char| ascii_lower_char(c))
}

/// The texts of a sequence of strings.
pub open spec fn texts(v: Seq<String>) -> Seq<Seq<char>> {
    v.map_values(|s: String| s@)
}

/// The text of an optional string.
pub open spec fn opt_text(o: Option<String>) -> Option<Seq<char>> {
    match o {
        Some(s) => Some(s@),
        None => None,
    }
}

/// Whether `p` stands in `s` at position `i`.
pub open spec fn occurs_at(s: Seq<char>, p: Seq<char>, i: int) -> bool {
    &&& 0 <= i
    &&& i + p.len() <= s.len()
    &&& s.subrange(i, i + p.len()) == p
}

/// Whether `p` stands anywhere in `s`.
pub open spec fn has_infix(s: Seq<char>, p: Seq<char>) -> bool {
    exists|i: int| occurs_at(s, p, i)
}

/// Whether `s` begins with `p`.
pub open spec fn has_prefix(s: Seq<char>, p: Seq<char>) -> bool {
    occurs_at(s, p, 0)
}

/// Whether `s` ends with `p`.
pub open spec fn has_suffix(s: Seq<char>, p: Seq<char>) -> bool {
    occurs_at(s, p, s.len() - p.len())
}

/// The lexicographic order of texts by the code points of their
/// characters: `a` stands strictly before `b`.
pub open spec fn text_lt(a: Seq<char>, b: Seq<char>) -> bool
    decreases a.len(),
{
    if b.len() == 0 {
        false
    } else if a.len() == 0 {
        true
    } else if a[0] != b[0] {
        a[0] < b[0]
    } else {
        text_lt(a.drop_first(), b.drop_first())
    }
}

/// `s` without the white space at its front.
pub open spec fn trim_front(s: Seq<char>) -> Seq<char>
    decreases s.len(),
{
    if s.len() > 0 && white_space(s[0]) {
        trim_front(s.drop_first())
    } else {
        s
    }
}

/// `s` without the white space at its back.
pub open spec fn trim_back(s: Seq<char>) -> Seq<char>
    decreases s.len(),
{
    if s.len() > 0 && white_space(s.last()) {
        trim_back(s.drop_last())
    } else {
        s
    }
}

/// `s` without the white space at either end.
pub open spec fn trim(s: Seq<char>) -> Seq<char> {
    trim_back(trim_front(s))
}

/// The longest run of characters at the front of `s` that holds no
/// white space.
pub open spec fn leading_word(s: Seq<char>) -> Seq<char>
    decreases s.len(),
{
    if s.len() > 0 && !white_space(s[0]) {
        seq![s[0]] + leading_word(s.drop_first())
    } else {
        Seq::<char>::empty()
    }
}

/// The first word of `s`: the text between its leading white space and
/// the next white space. Empty where `s` holds white space only.
pub open spec fn first_word(s: Seq<char>) -> Seq<char> {
    leading_word(trim_front(s))
}

/// The decimal numeral of `n`.
pub open spec fn decimal(n: nat) -> Seq<char>
    decreases n,
{
    if n < 10 {
        seq![('0' as u32 + n) as char]
    } else {
        decimal(n / 10).push(('0' as u32 + n % 10) as char)
    }
}

/// The number that a sequence of ASCII digits denotes.
pub open spec fn digits_value(s: Seq<char>) -> nat
    decreases s.len(),
{
    if s.len() == 0 {
        0
    } else {
        digits_value(s.drop_last()) * 10 + digit_value(s.last())
    }
}

/// Whether `s` is one ASCII digit or more.
pub open spec fn all_digits(s: Seq<char>) -> bool {
    s.len() > 0 && forall|i: int| 0 <= i < s.len() ==> ascii_digit(#[trigger] s[i])
}

/// What a text of ASCII digits denotes, where it is one.
pub open spec fn parsed_number(s: Seq<char>) -> Option<nat> {
    if all_digits(s) {
        Some(digits_value(s))
    } else {
        None
    }
}

/// A decimal numeral denotes the number that it was made of.
pub proof fn decimal_round_trip(n: nat)
    ensures
        all_digits(decimal(n)),
        digits_value(decimal(n)) == n,
        parsed_number(decimal(n)) == Some(n),
        n < 10 ==> decimal(n).len() == 1,
        n >= 10 ==> decimal(n).len() == decimal(n / 10).len() + 1,
    decreases n,
{
    let s = decimal(n);
    let c = ('0' as u32 + n % 10) as char;
    assert(ascii_digit(c) && digit_value(c) == n % 10);
    if n < 10 {
        assert(s =~= seq![c]);
        assert(s.drop_last() =~= Seq::empty());
        assert(digits_value(s.drop_last()) == 0);
    } else {
        decimal_round_trip(n / 10);
        assert(s.drop_last() =~= decimal(n / 10));
        assert forall|i: int| 0 <= i < s.len() implies ascii_digit(#[trigger] s[i]) by {
            if i < s.len() - 1 {
                assert(s[i] == decimal(n / 10)[i]);
            }
        }
    }
}

/// A text that is put between two others is found there.
pub proof fn parts_are_found(a: Seq<char>, b: Seq<char>, c: Seq<char>)
    ensures
        has_infix(a + b + c, b),
        has_prefix(a + b, a),
        has_suffix(a + b, b),
        has_infix(a, b) ==> b.len() <= a.len(),
{
    assert((a + b + c).subrange(a.len() as int, (a.len() + b.len()) as int) =~= b);
    assert(occurs_at(a + b + c, b, a.len() as int));
    assert((a + b).subrange(0, a.len() as int) =~= a);
    assert((a + b).subrange(a.len() as int, (a + b).len() as int) =~= b);
}

/// A text that is found stands there letter for letter.
pub proof fn found_texts_are_there(s: Seq<char>, p: Seq<char>)
    requires
        has_infix(s, p),
    ensures
        exists|a: Seq<char>, c: Seq<char>| s == #[trigger] (a + p + c),
{
    let i = choose|i: int| occurs_at(s, p, i);
    let a = s.take(i);
    let c = s.skip(i + p.len());
    assert(s =~= a + p + c);
}

/// What an unsigned numeral denotes, where it is one and denotes at most
/// `max`: ASCII digits, a plus sign in front or none.
pub open spec fn unsigned_of(s: Seq<char>, max: u32) -> Option<u32> {
    let digits = if s.len() > 0 && s[0] == '+' {
        s.skip(1)
    } else {
        s
    };
    match parsed_number(digits) {
        Some(n) => if n <= max {
            Some(n as u32)
        } else {
            None
        },
        None => None,
    }
}

/// Trimming takes the white space away at both ends, and nothing else.
pub proof fn trimming_takes_white_space_away(a: Seq<char>, s: Seq<char>, b: Seq<char>)
    requires
        forall|i: int| 0 <= i < a.len() ==> white_space(#[trigger] a[i]),
        forall|i: int| 0 <= i < b.len() ==> white_space(#[trigger] b[i]),
        s.len() > 0 ==> !white_space(s[0]) && !white_space(s[s.len() - 1]),
    ensures
        trim(a + s + b) == s,
{
    front_white_goes(a, s + b);
    assert(a + s + b =~= a + (s + b));
    if s.len() > 0 {
        assert((s + b)[0] == s[0]);
        back_white_goes(s, b);
    } else {
        assert(s + b =~= b);
        front_white_goes(b, Seq::empty());
        assert(b + Seq::<char>::empty() =~= b);
        assert(trim_back(Seq::<char>::empty()) =~= s);
    }
}

proof fn front_white_goes(a: Seq<char>, t: Seq<char>)
    requires
        forall|i: int| 0 <= i < a.len() ==> white_space(#[trigger] a[i]),
    ensures
        trim_front(a + t) == trim_front(t),
    decreases a.len(),
{
    if a.len() > 0 {
        assert((a + t)[0] == a[0]);
        assert((a + t).drop_first() =~= a.drop_first() + t);
        assert forall|i: int| 0 <= i < a.drop_first().len() implies white_space(
            #[trigger] a.drop_first()[i],
        ) by {
            assert(a.drop_first()[i] == a[i + 1]);
        }
        front_white_goes(a.drop_first(), t);
    } else {
        assert(a + t =~= t);
    }
}

proof fn back_white_goes(s: Seq<char>, b: Seq<char>)
    requires
        s.len() > 0,
        !white_space(s[s.len() - 1]),
        forall|i: int| 0 <= i < b.len() ==> white_space(#[trigger] b[i]),
    ensures
        trim_back(s + b) == s,
    decreases b.len(),
{
    if b.len() > 0 {
        assert((s + b).last() == b[b.len() - 1]);
        assert((s + b).drop_last() =~= s + b.drop_last());
        assert forall|i: int| 0 <= i < b.drop_last().len() implies white_space(
            #[trigger] b.drop_last()[i],
        ) by {
            assert(b.drop_last()[i] == b[i]);
        }
        back_white_goes(s, b.drop_last());
    } else {
        assert(s + b =~= s);
    }
}

/// Spaces, tabs and line breaks are white space, and no letter, digit or
/// sign of ASCII is.
pub proof fn white_space_of_ascii(c: char)
    ensures
        white_space(' ') && white_space('\t') && white_space('\n') && white_space('\r'),
        '!' <= c <= '~' ==> !white_space(c),
{
}

/// A capital of ASCII has the small letter of its place in the alphabet,
/// and every other character is kept.
pub proof fn capitals_have_their_small_letters(c: char)
    ensures
        'A' <= c <= 'Z' ==> ascii_lower_char(c) as int - 'a' as int == c as int - 'A' as int,
        !('A' <= c <= 'Z') ==> ascii_lower_char(c) == c,
{
}

/// The first word of a text is what stands before its first white space,
/// without the white space in front.
pub proof fn first_words_end_at_white_space(w: Seq<char>, rest: Seq<char>)
    requires
        w.len() > 0,
        forall|i: int| 0 <= i < w.len() ==> !white_space(#[trigger] w[i]),
        rest.len() > 0 ==> white_space(rest[0]),
    ensures
        first_word(w + rest) == w,
        first_word(seq![' '] + (w + rest)) == w,
{
    assert((w + rest)[0] == w[0]);
    leading_word_is(w, rest);
    let t = seq![' '] + (w + rest);
    assert(t[0] == ' ');
    assert(t.drop_first() =~= w + rest);
}

proof fn leading_word_is(w: Seq<char>, rest: Seq<char>)
    requires
        forall|i: int| 0 <= i < w.len() ==> !white_space(#[trigger] w[i]),
        rest.len() > 0 ==> white_space(rest[0]),
    ensures
        leading_word(w + rest) == w,
    decreases w.len(),
{
    let t = w + rest;
    if w.len() > 0 {
        assert(t[0] == w[0]);
        assert(t.drop_first() =~= w.drop_first() + rest);
        assert forall|i: int| 0 <= i < w.drop_first().len() implies !white_space(
            #[trigger] w.drop_first()[i],
        ) by {
            assert(w.drop_first()[i] == w[i + 1]);
        }
        leading_word_is(w.drop_first(), rest);
        assert(seq![w[0]] + w.drop_first() =~= w);
    } else {
        assert(t =~= rest);
        assert(leading_word(t) =~= w);
    }
}

/// A numeral denotes its number with a plus sign in front and without
/// one, as far as the number may go; nothing else denotes any.
pub proof fn unsigned_numerals_are_read(n: nat, max: u32)
    ensures
        n <= max ==> unsigned_of(decimal(n), max) == Some(n as u32) && unsigned_of(
            seq!['+'] + decimal(n),
            max,
        ) == Some(n as u32),
        n > max ==> unsigned_of(decimal(n), max) is None,
        unsigned_of(Seq::empty(), max) is None,
        unsigned_of(seq!['-'] + decimal(n), max) is None,
{
    decimal_round_trip(n);
    assert(ascii_digit(decimal(n)[0]));
    let p = seq!['+'] + decimal(n);
    assert(p[0] == '+');
    assert(p.skip(1) =~= decimal(n));
    let m = seq!['-'] + decimal(n);
    assert(m[0] == '-');
}

// ---------------------------------------------------------------------
// Laws of the order
// ---------------------------------------------------------------------

/// No text stands before itself.
pub proof fn text_lt_irreflexive(a: Seq<char>)
    ensures
        !text_lt(a, a),
    decreases a.len(),
{
    if a.len() > 0 {
        text_lt_irreflexive(a.drop_first());
    }
}

/// Texts are ordered by the first character in which they differ, and a
/// text stands before every longer one that begins with it.
pub proof fn first_difference_decides(p: Seq<char>, a: Seq<char>, b: Seq<char>)
    ensures
        a.len() > 0 && b.len() > 0 && a[0] != b[0] ==> (text_lt(p + a, p + b) <==> a[0] < b[0]),
        a.len() == 0 && b.len() > 0 ==> text_lt(p + a, p + b) && !text_lt(p + b, p + a),
    decreases p.len(),
{
    if p.len() == 0 {
        assert(p + a =~= a);
        assert(p + b =~= b);
    } else {
        first_difference_decides(p.drop_first(), a, b);
        assert((p + a).drop_first() =~= p.drop_first() + a);
        assert((p + b).drop_first() =~= p.drop_first() + b);
    }
}

/// Of two different texts one stands before the other.
pub proof fn text_lt_total(a: Seq<char>, b: Seq<char>)
    ensures
        text_lt(a, b) || text_lt(b, a) || a == b,
    decreases a.len(),
{
    if a.len() > 0 && b.len() > 0 && a[0] == b[0] {
        text_lt_total(a.drop_first(), b.drop_first());
        if a.drop_first() == b.drop_first() {
            assert(a =~= seq![a[0]] + a.drop_first());
            assert(b =~= seq![b[0]] + b.drop_first());
        }
    } else if a.len() == 0 && b.len() == 0 {
        assert(a =~= b);
    }
}

/// The order is transitive.
pub proof fn text_lt_transitive(a: Seq<char>, b: Seq<char>, c: Seq<char>)
    requires
        text_lt(a, b),
        text_lt(b, c),
    ensures
        text_lt(a, c),
    decreases a.len(),
{
    if a.len() > 0 && b.len() > 0 && c.len() > 0 && a[0] == b[0] && b[0] == c[0] {
        text_lt_transitive(a.drop_first(), b.drop_first(), c.drop_first());
    }
}

/// Of two texts at most one stands before the other.
pub proof fn text_lt_asymmetric(a: Seq<char>, b: Seq<char>)
    requires
        text_lt(a, b),
    ensures
        !text_lt(b, a),
        a != b,
{
    text_lt_irreflexive(a);
    if text_lt(b, a) {
        text_lt_transitive(a, b, a);
    }
}

// ---------------------------------------------------------------------
// Characters and strings
// ---------------------------------------------------------------------

/// The characters of `s`, in order.
pub fn chars_of(s: &str) -> (out: Vec<char>)
    ensures
        out@ == s@,
{
    let mut out: Vec<char> = Vec::new();
    for c in it: s.chars()
        invariant
            out@ == it.seq().take(it.index() as int),
            it.seq() == s@,
    {
        proof {
            assert(it.seq().take(it.index() + 1) =~= it.seq().take(it.index() as int).push(c));
        }
        out.push(c);
    }
    proof {
        assert(s@.take(s@.len() as int) =~= s@);
    }
    out
}

/// The text of the characters `cs[from..to]`.
pub fn string_of_range(cs: &Vec<char>, from: usize, to: usize) -> (out: String)
    requires
        from <= to <= cs@.len(),
    ensures
        out@ == cs@.subrange(from as int, to as int),
{
    let mut out: String = String::new();
    let mut i: usize = from;
    proof {
        assert(cs@.subrange(from as int, from as int) =~= Seq::<char>::empty());
    }
    while i < to
        invariant
            from <= i <= to <= cs@.len(),
            out@ == cs@.subrange(from as int, i as int),
        decreases to - i,
    {
        proof {
            assert(cs@.subrange(from as int, i + 1) =~= cs@.subrange(from as int, i as int).push(cs@[i as int]));
        }
        out.push(cs[i]);
        i += 1;
    }
    out
}

/// The text of the characters `cs`.
pub fn string_of(cs: &Vec<char>) -> (out: String)
    ensures
        out@ == cs@,
{
    proof {
        assert(cs@.subrange(0, cs@.len() as int) =~= cs@);
    }
    string_of_range(cs, 0, cs.len())
}

/// A string of its own with the text `s`.
pub fn owned(s: &str) -> (out: String)
    ensures
        out@ == s@,
{
    s.to_owned()
}

/// Appends the text `t` to `s`.
pub fn push_text(s: &mut String, t: &str)
    ensures
        final(s)@ == old(s)@ + t@,
{
    let cs: Vec<char> = chars_of(t);
    proof {
        assert(old(s)@ + t@.take(0) =~= old(s)@);
    }
    let mut i: usize = 0;
    while i < cs.len()
        invariant
            i <= cs@.len(),
            cs@ == t@,
            s@ == old(s)@ + t@.take(i as int),
        decreases cs@.len() - i,
    {
        proof {
            assert(old(s)@ + t@.take(i + 1) =~= (old(s)@ + t@.take(i as int)).push(t@[i as int]));
        }
        s.push(cs[i]);
        i += 1;
    }
    proof {
        assert(t@.take(t@.len() as int) =~= t@);
    }
}

/// Whether two texts are the same.
pub fn same_text(a: &str, b: &str) -> (r: bool)
    ensures
        r == (a@ == b@),
{
    let x: String = a.to_owned();
    let y: String = b.to_owned();
    x == y
}

/// `c` with an ASCII capital replaced by its small letter.
pub fn to_ascii_lower_char(c: char) -> (r: char)
    ensures
        r == ascii_lower_char(c),
{
    if 'A' <= c && c <= 'Z' {
        ((c as u8) + 32) as char
    } else {
        c
    }
}

/// `s` with every ASCII capital replaced by its small letter.
pub fn to_ascii_lower(s: &str) -> (r: String)
    ensures
        r@ == ascii_lower(s@),
{
    let cs: Vec<char> = chars_of(s);
    let mut out: String = String::new();
    let mut i: usize = 0;
    while i < cs.len()
        invariant
            i <= cs@.len(),
            cs@ == s@,
            out@ =~= ascii_lower(s@.take(i as int)),
        decreases cs@.len() - i,
    {
        proof {
            assert(s@.take(i + 1) =~= s@.take(i as int).push(s@[i as int]));
        }
        out.push(to_ascii_lower_char(cs[i]));
        i += 1;
    }
    proof {
        assert(s@.take(s@.len() as int) =~= s@);
    }
    out
}

/// Whether `c` is an ASCII digit.
pub fn is_ascii_digit(c: char) -> (r: bool)
    ensures
        r == ascii_digit(c),
{
    '0' <= c && c <= '9'
}

/// Whether `a` stands strictly before `b` in the order of texts.
pub fn text_before(a: &str, b: &str) -> (r: bool)
    ensures
        r == text_lt(a@, b@),
{
    let x: Vec<char> = chars_of(a);
    let y: Vec<char> = chars_of(b);
    let mut i: usize = 0;
    proof {
        assert(a@.skip(0) =~= a@);
        assert(b@.skip(0) =~= b@);
    }
    loop
        invariant
            x@ == a@,
            y@ == b@,
            i <= x@.len(),
            i <= y@.len(),
            text_lt(a@, b@) == text_lt(a@.skip(i as int), b@.skip(i as int)),
        decreases x@.len() - i,
    {
        if i >= y.len() {
            return false;
        }
        if i >= x.len() {
            return true;
        }
        if x[i] != y[i] {
            return x[i] < y[i];
        }
        proof {
            assert(a@.skip(i as int).drop_first() =~= a@.skip(i + 1));
            assert(b@.skip(i as int).drop_first() =~= b@.skip(i + 1));
        }
        i += 1;
    }
}

// ---------------------------------------------------------------------
// Searching
// ---------------------------------------------------------------------

/// Whether the characters `p` stand in `s` at position `at`.
pub fn stands_at(s: &Vec<char>, p: &Vec<char>, at: usize) -> (r: bool)
    ensures
        r == occurs_at(s@, p@, at as int),
{
    if p.len() > s.len() || at > s.len() - p.len() {
        return false;
    }
    let n: usize = s.len();
    let mut i: usize = 0;
    while i < p.len()
        invariant
            i <= p@.len(),
            n == s@.len(),
            at + p@.len() <= n,
            forall|j: int| 0 <= j < i ==> s@[at + j] == p@[j],
        decreases p@.len() - i,
    {
        if s[at + i] != p[i] {
            proof {
                assert(s@.subrange(at as int, at + p@.len())[i as int] != p@[i as int]);
            }
            return false;
        }
        i += 1;
    }
    proof {
        assert(s@.subrange(at as int, at + p@.len()) =~= p@);
    }
    true
}

/// Whether `s` begins with `p`.
pub fn begins_with(s: &str, p: &str) -> (r: bool)
    ensures
        r == has_prefix(s@, p@),
{
    stands_at(&chars_of(s), &chars_of(p), 0)
}

/// Whether `p` stands anywhere in `s`.
pub fn holds_text(s: &str, p: &str) -> (r: bool)
    ensures
        r == has_infix(s@, p@),
{
    let x: Vec<char> = chars_of(s);
    let y: Vec<char> = chars_of(p);
    if y.len() > x.len() {
        return false;
    }
    let mut i: usize = 0;
    while i <= x.len() - y.len()
        invariant
            x@ == s@,
            y@ == p@,
            y@.len() <= x@.len(),
            i <= x@.len() - y@.len() + 1,
            forall|j: int| 0 <= j < i ==> !occurs_at(s@, p@, j),
        decreases x@.len() - y@.len() + 1 - i,
    {
        if stands_at(&x, &y, i) {
            return true;
        }
        if i == x.len() - y.len() {
            return false;
        }
        i += 1;
    }
    false
}

/// Whether one of `list` is the text `s`.
pub fn list_has(list: &Vec<String>, s: &str) -> (r: bool)
    ensures
        r == texts(list@).contains(s@),
{
    let mut i: usize = 0;
    while i < list.len()
        invariant
            i <= list@.len(),
            forall|j: int| 0 <= j < i ==> list@[j]@ != s@,
        decreases list@.len() - i,
    {
        if same_text(list[i].as_str(), s) {
            proof {
                assert(texts(list@)[i as int] == s@);
            }
            return true;
        }
        i += 1;
    }
    proof {
        assert forall|k: int| 0 <= k < texts(list@).len() implies texts(list@)[k] != s@ by {
            assert(texts(list@)[k] == list@[k]@);
        }
    }
    false
}

/// A copy of a list of strings.
pub fn copy_texts(list: &Vec<String>) -> (out: Vec<String>)
    ensures
        out@ == list@,
{
    let mut out: Vec<String> = Vec::new();
    let mut i: usize = 0;
    while i < list.len()
        invariant
            i <= list@.len(),
            out@ == list@.take(i as int),
        decreases list@.len() - i,
    {
        proof {
            assert(list@.take(i + 1) =~= list@.take(i as int).push(list@[i as int]));
        }
        out.push(list[i].clone());
        i += 1;
    }
    proof {
        assert(list@.take(list@.len() as int) =~= list@);
    }
    out
}

/// A copy of an optional string.
pub fn copy_opt_text(o: &Option<String>) -> (out: Option<String>)
    ensures
        out == *o,
{
    match o {
        Some(s) => Some(s.clone()),
        None => None,
    }
}

// ---------------------------------------------------------------------
// White space
// ---------------------------------------------------------------------

/// `s` without the white space at either end.
pub fn trimmed(s: &str) -> (out: String)
    ensures
        out@ == trim(s@),
{
    let cs: Vec<char> = chars_of(s);
    let mut from: usize = 0;
    proof {
        assert(s@.skip(0) =~= s@);
    }
    while from < cs.len() && is_whitespace(cs[from])
        invariant
            from <= cs@.len(),
            cs@ == s@,
            trim_front(s@) == trim_front(s@.skip(from as int)),
        decreases cs@.len() - from,
    {
        proof {
            assert(s@.skip(from as int).drop_first() =~= s@.skip(from + 1));
        }
        from += 1;
    }
    let ghost front = s@.skip(from as int);
    proof {
        assert(trim_front(s@) == front);
        assert(front.take(front.len() as int) =~= front);
    }
    let mut to: usize = cs.len();
    while to > from && is_whitespace(cs[to - 1])
        invariant
            from <= to <= cs@.len(),
            cs@ == s@,
            front == s@.skip(from as int),
            trim_back(front) == trim_back(front.take(to - from)),
        decreases to,
    {
        proof {
            assert(front.take(to - from).drop_last() =~= front.take(to - 1 - from));
            assert(front.take(to - from).last() == s@[to - 1]);
        }
        to -= 1;
    }
    proof {
        if to > from {
            assert(front.take(to - from).last() == s@[to - 1]);
        }
        assert(cs@.subrange(from as int, to as int) =~= front.take(to - from));
    }
    string_of_range(&cs, from, to)
}

/// The first word of `s`; empty where `s` holds white space only.
pub fn word_of(s: &str) -> (out: String)
    ensures
        out@ == first_word(s@),
{
    let cs: Vec<char> = chars_of(s);
    let mut from: usize = 0;
    proof {
        assert(s@.skip(0) =~= s@);
    }
    while from < cs.len() && is_whitespace(cs[from])
        invariant
            from <= cs@.len(),
            cs@ == s@,
            trim_front(s@) == trim_front(s@.skip(from as int)),
        decreases cs@.len() - from,
    {
        proof {
            assert(s@.skip(from as int).drop_first() =~= s@.skip(from + 1));
        }
        from += 1;
    }
    let ghost front = s@.skip(from as int);
    let mut out: String = String::new();
    let mut i: usize = from;
    proof {
        assert(front.skip(0) =~= front);
        assert(Seq::<char>::empty() + leading_word(front) =~= leading_word(front));
    }
    while i < cs.len() && !is_whitespace(cs[i])
        invariant
            from <= i <= cs@.len(),
            cs@ == s@,
            front == s@.skip(from as int),
            leading_word(front) == out@ + leading_word(front.skip(i - from)),
        decreases cs@.len() - i,
    {
        proof {
            let rest = front.skip(i - from);
            assert(rest[0] == cs@[i as int]);
            assert(rest.drop_first() =~= front.skip(i + 1 - from));
            assert(out@ + (seq![rest[0]] + leading_word(rest.drop_first())) =~= out@.push(rest[0])
                + leading_word(rest.drop_first()));
        }
        out.push(cs[i]);
        i += 1;
    }
    proof {
        let rest = front.skip(i - from);
        if i < cs@.len() {
            assert(rest[0] == cs@[i as int]);
        }
        assert(leading_word(rest) =~= Seq::<char>::empty());
        assert(out@ + Seq::<char>::empty() =~= out@);
    }
    out
}

// ---------------------------------------------------------------------
// Numerals
// ---------------------------------------------------------------------

/// The decimal numeral of `n`.
pub fn to_decimal(n: u64) -> (out: String)
    ensures
        out@ == decimal(n as nat),
    decreases n,
{
    if n < 10 {
        let mut out: String = String::new();
        out.push((48 + n as u8) as char);
        proof {
            assert(out@ =~= decimal(n as nat));
        }
        out
    } else {
        let mut out: String = to_decimal(n / 10);
        out.push((48 + (n % 10) as u8) as char);
        out
    }
}

/// The number that the ASCII digits `s` denote, where `s` is one digit
/// or more and the number is at most `max`.
pub fn parse_digits(s: &str, max: u32) -> (r: Option<u32>)
    ensures
        r == (match parsed_number(s@) {
            Some(n) => if n <= max { Some(n as u32) } else { None },
            None => None,
        }),
{
    let cs: Vec<char> = chars_of(s);
    if cs.len() == 0 {
        return None;
    }
    let mut n: u64 = 0;
    let mut big: bool = false;
    let mut i: usize = 0;
    while i < cs.len()
        invariant
            i <= cs@.len(),
            cs@ == s@,
            forall|j: int| 0 <= j < i ==> ascii_digit(#[trigger] s@[j]),
            !big ==> n == digits_value(s@.take(i as int)) && n <= max,
            big ==> digits_value(s@.take(i as int)) > max,
        decreases cs@.len() - i,
    {
        let c: char = cs[i];
        if !is_ascii_digit(c) {
            return None;
        }
        proof {
            assert(s@.take(i + 1).drop_last() =~= s@.take(i as int));
            assert(s@.take(i + 1).last() == c);
        }
        if !big {
            n = n * 10 + (c as u32 - 48) as u64;
            if n > max as u64 {
                big = true;
            }
        }
        i += 1;
    }
    proof {
        assert(s@.take(s@.len() as int) =~= s@);
    }
    if big {
        None
    } else {
        Some(n as u32)
    }
}

/// What an unsigned numeral denotes.
pub fn parse_unsigned(s: &str, max: u32) -> (r: Option<u32>)
    ensures
        r == unsigned_of(s@, max),
{
    let cs: Vec<char> = chars_of(s);
    if cs.len() > 0 && cs[0] == '+' {
        let digits: String = string_of_range(&cs, 1, cs.len());
        proof {
            assert(cs@.subrange(1, cs@.len() as int) =~= s@.skip(1));
        }
        parse_digits(digits.as_str(), max)
    } else {
        parse_digits(s, max)
    }
}

} // verus!
