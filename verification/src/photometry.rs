//! Photometric figures: what a light distribution file tells, and which
//! figures are plausible.

use crate::doc::{PhotometricSymmetryHint, PhotometryStats};
use crate::double::{
    at_least_zero, difference, difference_of, hundredth, hundredth_of, magnitude, magnitude_of,
    narrow, narrowed, not_below_zero, WIDE_NAN,
};
use crate::keys::{finite_key, is_finite_key, INFINITY_KEY};
use crate::quotient::{is_whole, quotient_key, quotient_of};
use crate::tables::{id_of, value_id, Axis};
use crate::text::{
    all_digits, ascii_digit, chars_of, decimal, digits_value, is_ascii_digit, lowercase, occurs_at,
    parse_digits, parsed_number, stands_at, string_of_range, unicode_lower,
};
use crate::wide::{
    is_wide_finite, wide_at_most, wide_below, wide_finite, wide_key, wide_key_of_bits, wide_le,
    wide_lt, wide_nan, WIDE_100, WIDE_120, WIDE_150, WIDE_20, WIDE_30, WIDE_5, WIDE_50, WIDE_60,
    WIDE_80, WIDE_90, WIDE_INFINITY,
};
use vstd::arithmetic::power2::{lemma2_to64, lemma_pow2_adds, pow2};
use vstd::prelude::*;

verus! {

// ---------------------------------------------------------------------
// Colour designations
// ---------------------------------------------------------------------

/// Whether a run of exactly `n` digits begins in `s` at `i`.
pub open spec fn digit_run(s: Seq<char>, i: int, n: int) -> bool {
    &&& 0 <= i
    &&& i + n <= s.len()
    &&& forall|j: int| i <= j < i + n ==> ascii_digit(#[trigger] s[j])
    &&& i == 0 || !ascii_digit(s[i - 1])
    &&& i + n == s.len() || !ascii_digit(s[i + n])
}

/// The number that `n` digits from `i` on denote.
pub open spec fn run_value(s: Seq<char>, i: int, n: int) -> nat {
    digits_value(s.subrange(i, i + n))
}

/// Whether a colour code begins in `s` at `i`: three digits, the first
/// an eight or a nine, the others at least fifteen.
pub open spec fn din_code_at(s: Seq<char>, i: int) -> bool {
    digit_run(s, i, 3) && run_value(s, i, 3) >= 800 && run_value(s, i, 3) % 100 >= 15
}

/// The colour temperature and colour rendering of the first colour code
/// from `i` on.
pub open spec fn din_code_from(s: Seq<char>, i: int) -> Option<(u16, u8)>
    decreases s.len() - i,
{
    if i < 0 || i >= s.len() {
        None
    } else if din_code_at(s, i) {
        Some(
            (
                ((run_value(s, i, 3) % 100) * 100) as u16,
                ((run_value(s, i, 3) / 100) * 10) as u8,
            ),
        )
    } else {
        din_code_from(s, i + 1)
    }
}

/// The colour temperature of the first run of four digits, from `i` on,
/// that is one.
pub open spec fn kelvin_from(s: Seq<char>, i: int) -> Option<u16>
    decreases s.len() - i,
{
    if i < 0 || i >= s.len() {
        None
    } else if digit_run(s, i, 4) && run_value(s, i, 4) >= 1500 {
        Some(run_value(s, i, 4) as u16)
    } else {
        kelvin_from(s, i + 1)
    }
}

/// The first place, from `i` on, at which `p` stands in `s`.
pub open spec fn found_from(s: Seq<char>, p: Seq<char>, i: int) -> Option<int>
    decreases s.len() - i,
{
    if i < 0 || i >= s.len() {
        None
    } else if occurs_at(s, p, i) {
        Some(i)
    } else {
        found_from(s, p, i + 1)
    }
}

/// The digits that a text begins with.
pub open spec fn leading_digits(s: Seq<char>) -> Seq<char>
    decreases s.len(),
{
    if s.len() == 0 || !ascii_digit(s[0]) {
        Seq::empty()
    } else {
        seq![s[0]] + leading_digits(s.skip(1))
    }
}

/// The colour rendering index that stands behind the first `ra` of a
/// text.
pub open spec fn marked_ra(s: Seq<char>) -> Option<u8> {
    let lower = unicode_lower(s);
    match found_from(lower, "ra"@, 0) {
        Some(at) => match parsed_number(leading_digits(lower.skip(at + 2))) {
            Some(n) => if 50 <= n <= 100 {
                Some(n as u8)
            } else {
                None
            },
            None => None,
        },
        None => None,
    }
}

/// The colour rendering index that a text of two digits denotes.
pub open spec fn bare_ra(s: Seq<char>) -> Option<u8> {
    if s.len() == 2 && all_digits(s) && digits_value(s) >= 50 {
        Some(digits_value(s) as u8)
    } else {
        None
    }
}

/// The colour rendering index that a text names.
pub open spec fn named_ra(s: Seq<char>) -> Option<u8> {
    if marked_ra(s) is Some {
        marked_ra(s)
    } else {
        bare_ra(s)
    }
}

/// The first of two that is there.
pub open spec fn either<T>(a: Option<T>, b: Option<T>) -> Option<T> {
    if a is Some {
        a
    } else {
        b
    }
}

/// Colour temperature and colour rendering from the two colour fields of
/// a lamp.
pub open spec fn colours(appearance: Seq<char>, rendering: Seq<char>) -> (Option<u16>, Option<u8>) {
    match either(din_code_from(appearance, 0), din_code_from(rendering, 0)) {
        Some((cct, cri)) => (Some(cct), Some(cri)),
        None => (
            either(kelvin_from(appearance, 0), kelvin_from(rendering, 0)),
            either(named_ra(rendering), named_ra(appearance)),
        ),
    }
}

/// A run of three digits is read digit by digit: the first one is the
/// tens of the rendering index, the other two the hundreds of kelvin. It
/// is a colour code where it begins with an eight or a nine and names
/// fifteen hundred kelvin or more.
#[verifier::spinoff_prover]
pub proof fn colour_code_is_read(s: Seq<char>, i: int)
    requires
        digit_run(s, i, 3),
        forall|j: int| 0 <= j < i ==> !ascii_digit(#[trigger] s[j]),
    ensures
        ({
            let a = s[i] as int - '0' as int;
            let b = s[i + 1] as int - '0' as int;
            let c = s[i + 2] as int - '0' as int;
            &&& a >= 8 && b * 10 + c >= 15 ==> {
                &&& din_code_from(s, 0) is Some
                &&& (din_code_from(s, 0)->0).0 == (b * 10 + c) * 100
                &&& (din_code_from(s, 0)->0).1 == a * 10
            }
            &&& (a < 8 || b * 10 + c < 15) && (forall|j: int|
                i + 3 <= j < s.len() ==> !ascii_digit(#[trigger] s[j])) ==> din_code_from(
                s,
                0,
            ) is None
        }),
{
    let t = s.subrange(i, i + 3);
    assert(t.drop_last().drop_last().drop_last() =~= Seq::empty());
    reveal_with_fuel(digits_value, 4);
    let a = s[i] as int - '0' as int;
    let b = s[i + 1] as int - '0' as int;
    let c = s[i + 2] as int - '0' as int;
    assert(ascii_digit(s[i]) && ascii_digit(s[i + 1]) && ascii_digit(s[i + 2]));
    assert(t.last() == s[i + 2]);
    assert(t.drop_last().last() == s[i + 1]);
    assert(t.drop_last().drop_last().last() == s[i]);
    assert(run_value(s, i, 3) == a * 100 + b * 10 + c);
    no_code_before(s, 0, i);
    if (a < 8 || b * 10 + c < 15) && forall|j: int|
        i + 3 <= j < s.len() ==> !ascii_digit(#[trigger] s[j]) {
        assert(!din_code_at(s, i));
        no_code_behind(s, i, i + 3);
    }
}

proof fn no_code_before(s: Seq<char>, from: int, i: int)
    requires
        0 <= from <= i < s.len(),
        forall|j: int| 0 <= j < i ==> !ascii_digit(#[trigger] s[j]),
    ensures
        din_code_from(s, from) == din_code_from(s, i),
        kelvin_from(s, from) == kelvin_from(s, i),
    decreases i - from,
{
    if from < i {
        assert(!ascii_digit(s[from]));
        no_code_before(s, from + 1, i);
    }
}

proof fn no_code_behind(s: Seq<char>, i: int, end: int)
    requires
        0 <= i <= end <= s.len(),
        forall|j: int| end <= j < s.len() ==> !ascii_digit(#[trigger] s[j]),
        forall|j: int| i <= j < end ==> ascii_digit(#[trigger] s[j]),
        i < end ==> !din_code_at(s, i),
    ensures
        din_code_from(s, i) is None,
    decreases s.len() - i,
{
    if i < s.len() {
        if i < end {
            if i + 1 < end {
                assert(ascii_digit(s[i]));
                assert(!digit_run(s, i + 1, 3));
            }
            no_code_behind(s, i + 1, end);
        } else {
            assert(!ascii_digit(s[i]));
            no_code_behind(s, i + 1, i + 1);
        }
    }
}

/// A run of four digits of fifteen hundred or more is a colour
/// temperature, digit by digit.
pub proof fn kelvin_are_read(s: Seq<char>, i: int)
    requires
        digit_run(s, i, 4),
        forall|j: int| 0 <= j < i ==> !ascii_digit(#[trigger] s[j]),
    ensures
        ({
            let n = (s[i] as int - '0' as int) * 1000 + (s[i + 1] as int - '0' as int) * 100 + (s[i
                + 2] as int - '0' as int) * 10 + (s[i + 3] as int - '0' as int);
            n >= 1500 ==> kelvin_from(s, 0) is Some && kelvin_from(s, 0)->0 == n
        }),
{
    let t = s.subrange(i, i + 4);
    assert(t.drop_last().drop_last().drop_last().drop_last() =~= Seq::empty());
    reveal_with_fuel(digits_value, 5);
    assert(ascii_digit(s[i]) && ascii_digit(s[i + 1]) && ascii_digit(s[i + 2]) && ascii_digit(
        s[i + 3],
    ));
    assert(t.last() == s[i + 3]);
    assert(t.drop_last().last() == s[i + 2]);
    assert(t.drop_last().drop_last().last() == s[i + 1]);
    assert(t.drop_last().drop_last().drop_last().last() == s[i]);
    no_code_before(s, 0, i);
}

/// Whatever a text says, a colour code names between fifteen hundred and
/// nine thousand nine hundred kelvin and an index of eighty or ninety, a
/// stated temperature is at least fifteen hundred, and an index lies
/// between fifty and a hundred.
pub proof fn colours_are_in_range(s: Seq<char>, i: int)
    requires
        0 <= i,
    ensures
        din_code_from(s, i) matches Some(c) ==> 1500 <= c.0 <= 9900 && (c.1 == 80 || c.1 == 90),
        kelvin_from(s, i) matches Some(k) ==> 1500 <= k <= 9999,
        named_ra(s) matches Some(r) ==> 50 <= r <= 100,
    decreases s.len() - i,
{
    if i < s.len() {
        colours_are_in_range(s, i + 1);
        if digit_run(s, i, 3) {
            small_runs(s, i, 3);
        }
        if digit_run(s, i, 4) {
            small_runs(s, i, 4);
        }
    }
    if s.len() == 2 && all_digits(s) {
        assert(s.subrange(0, 2) =~= s);
        small_runs(s, 0, 2);
    }
}

proof fn small_runs(s: Seq<char>, i: int, n: int)
    requires
        0 <= i,
        0 <= n <= 4,
        i + n <= s.len(),
        forall|j: int| i <= j < i + n ==> ascii_digit(#[trigger] s[j]),
    ensures
        n == 0 ==> run_value(s, i, n) == 0,
        n == 1 ==> run_value(s, i, n) <= 9,
        n == 2 ==> run_value(s, i, n) <= 99,
        n == 3 ==> run_value(s, i, n) <= 999,
        n == 4 ==> run_value(s, i, n) <= 9999,
    decreases n,
{
    if n > 0 {
        small_runs(s, i, n - 1);
        assert(s.subrange(i, i + n).drop_last() =~= s.subrange(i, i + n - 1));
        assert(ascii_digit(s[i + n - 1]));
    }
}

/// A number of fifty to a hundred directly behind the first `ra` is the
/// rendering index, in letters of any case; two digits alone are one too.
#[verifier::spinoff_prover]
pub proof fn rendering_index_is_read(s: Seq<char>, at: int, n: nat)
    requires
        50 <= n <= 100,
    ensures
        0 <= at <= unicode_lower(s).len() && unicode_lower(s).skip(at) == "ra"@ + decimal(n) && (forall|j: int|
            0 <= j < at ==> !occurs_at(unicode_lower(s), "ra"@, j)) ==> named_ra(s) == Some(n as u8),
        s == decimal(n) && n < 100 && marked_ra(s) is None ==> named_ra(s) == Some(n as u8),
{
    crate::text::decimal_round_trip(n);
    reveal_strlit("ra");
    let lower = unicode_lower(s);
    if 0 <= at <= lower.len() && lower.skip(at) == "ra"@ + decimal(n) && forall|j: int|
        0 <= j < at ==> !occurs_at(lower, "ra"@, j) {
        let t = "ra"@ + decimal(n);
        assert(t.len() == 2 + decimal(n).len());
        assert(lower.len() == at + t.len());
        assert(lower.subrange(at, at + 2) =~= "ra"@) by {
            assert(lower[at] == lower.skip(at)[0]);
            assert(lower[at + 1] == lower.skip(at)[1]);
            assert(t[0] == "ra"@[0] && t[1] == "ra"@[1]);
        }
        assert(occurs_at(lower, "ra"@, at));
        found_at_first(lower, "ra"@, 0, at);
        assert(lower.skip(at + 2) =~= decimal(n)) by {
            assert(lower.skip(at + 2) =~= lower.skip(at).skip(2));
            assert(t.skip(2) =~= decimal(n));
        }
        all_digits_lead(decimal(n));
    }
    if s == decimal(n) && n < 100 {
        assert(decimal(n / 10).len() == 1);
        assert(s.len() == 2);
    }
}

proof fn found_at_first(s: Seq<char>, p: Seq<char>, from: int, at: int)
    requires
        0 <= from <= at < s.len(),
        occurs_at(s, p, at),
        forall|j: int| from <= j < at ==> !occurs_at(s, p, j),
    ensures
        found_from(s, p, from) == Some(at),
    decreases at - from,
{
    if from < at {
        assert(!occurs_at(s, p, from));
        found_at_first(s, p, from + 1, at);
    }
}

proof fn all_digits_lead(s: Seq<char>)
    requires
        forall|i: int| 0 <= i < s.len() ==> ascii_digit(#[trigger] s[i]),
    ensures
        leading_digits(s) == s,
    decreases s.len(),
{
    if s.len() > 0 {
        assert forall|i: int| 0 <= i < s.skip(1).len() implies ascii_digit(#[trigger] s.skip(1)[i]) by {
            assert(s.skip(1)[i] == s[i + 1]);
        }
        all_digits_lead(s.skip(1));
        assert(seq![s[0]] + s.skip(1) =~= s);
    } else {
        assert(leading_digits(s) =~= s);
    }
}

/// A colour code goes before stated figures, that of the appearance
/// before that of the rendering group. Stated kelvin are looked for in
/// the appearance first, a stated index in the rendering group first.
pub proof fn colour_fields_have_their_order(appearance: Seq<char>, rendering: Seq<char>)
    ensures
        ({
            let (cct, cri) = colours(appearance, rendering);
            let (a, b) = (din_code_from(appearance, 0), din_code_from(rendering, 0));
            &&& a is Some ==> cct == Some((a->0).0) && cri == Some((a->0).1)
            &&& a is None && b is Some ==> cct == Some((b->0).0) && cri == Some((b->0).1)
            &&& a is None && b is None ==> {
                &&& kelvin_from(appearance, 0) is Some ==> cct == kelvin_from(appearance, 0)
                &&& kelvin_from(appearance, 0) is None ==> cct == kelvin_from(rendering, 0)
                &&& named_ra(rendering) is Some ==> cri == named_ra(rendering)
                &&& named_ra(rendering) is None ==> cri == named_ra(appearance)
            }
        }),
{
}

/// Whether exactly `n` digits begin at `i`.
fn is_run(cs: &Vec<char>, i: usize, n: usize) -> (r: bool)
    requires
        i < cs@.len(),
        0 < n < 10,
    ensures
        r == digit_run(cs@, i as int, n as int),
{
    if n > cs.len() - i {
        return false;
    }
    if i > 0 && is_ascii_digit(cs[i - 1]) {
        return false;
    }
    if n < cs.len() - i && is_ascii_digit(cs[i + n]) {
        return false;
    }
    let mut j: usize = i;
    let end: usize = i + n;
    while j < end
        invariant
            i <= j <= end <= cs@.len(),
            end == i + n,
            forall|k: int| i <= k < j ==> ascii_digit(#[trigger] cs@[k]),
        decreases end - j,
    {
        if !is_ascii_digit(cs[j]) {
            return false;
        }
        j += 1;
    }
    true
}

/// The number that a run of digits denotes.
fn value_of_run(cs: &Vec<char>, i: usize, n: usize) -> (r: u32)
    requires
        digit_run(cs@, i as int, n as int),
        0 < n < 5,
    ensures
        r == run_value(cs@, i as int, n as int),
        n == 3 ==> r < 1_000,
        n == 4 ==> r < 10_000,
{
    let mut r: u32 = 0;
    let mut j: usize = 0;
    let len: usize = cs.len();
    proof {
        assert(cs@.subrange(i as int, i as int) =~= Seq::empty());
    }
    while j < n
        invariant
            j <= n < 5,
            i + n <= len == cs@.len(),
            digit_run(cs@, i as int, n as int),
            r == digits_value(cs@.subrange(i as int, i + j)),
            j == 0 ==> r == 0,
            j == 1 ==> r < 10,
            j == 2 ==> r < 100,
            j == 3 ==> r < 1_000,
            j == 4 ==> r < 10_000,
        decreases n - j,
    {
        proof {
            assert(cs@.subrange(i as int, i + j + 1).drop_last() =~= cs@.subrange(
                i as int,
                i + j,
            ));
            assert(ascii_digit(cs@[i + j]));
        }
        r = r * 10 + (cs[i + j] as u32 - 48);
        j += 1;
    }
    r
}

/// The colour temperature and colour rendering of the first three-digit
/// colour code in a text.
pub fn parse_din_code(s: &str) -> (r: Option<(u16, u8)>)
    ensures
        r == din_code_from(s@, 0),
{
    let cs: Vec<char> = chars_of(s);
    let mut i: usize = 0;
    while i < cs.len()
        invariant
            i <= cs@.len(),
            cs@ == s@,
            din_code_from(s@, 0) == din_code_from(s@, i as int),
        decreases cs@.len() - i,
    {
        if is_run(&cs, i, 3) {
            let code: u32 = value_of_run(&cs, i, 3);
            if code >= 800 && code % 100 >= 15 {
                return Some((((code % 100) * 100) as u16, ((code / 100) * 10) as u8));
            }
        }
        i += 1;
    }
    None
}

/// The colour temperature that a text names in four digits.
pub fn parse_explicit_kelvin(s: &str) -> (r: Option<u16>)
    ensures
        r == kelvin_from(s@, 0),
{
    let cs: Vec<char> = chars_of(s);
    let mut i: usize = 0;
    while i < cs.len()
        invariant
            i <= cs@.len(),
            cs@ == s@,
            kelvin_from(s@, 0) == kelvin_from(s@, i as int),
        decreases cs@.len() - i,
    {
        if is_run(&cs, i, 4) {
            let k: u32 = value_of_run(&cs, i, 4);
            if k >= 1500 {
                return Some(k as u16);
            }
        }
        i += 1;
    }
    None
}

/// The end of the digits that stand from `from` on.
fn end_of_digits(cs: &Vec<char>, from: usize) -> (r: usize)
    requires
        from <= cs@.len(),
    ensures
        from <= r <= cs@.len(),
        cs@.subrange(from as int, r as int) == leading_digits(cs@.skip(from as int)),
    decreases cs@.len() - from,
{
    if from == cs.len() || !is_ascii_digit(cs[from]) {
        proof {
            assert(cs@.subrange(from as int, from as int) =~= Seq::empty());
        }
        return from;
    }
    let r: usize = end_of_digits(cs, from + 1);
    proof {
        assert(cs@.skip(from as int).skip(1) =~= cs@.skip(from + 1));
        assert(cs@.subrange(from as int, r as int) =~= seq![cs@[from as int]] + cs@.subrange(
            from + 1,
            r as int,
        ));
    }
    r
}

/// The colour rendering index that a text names.
pub fn parse_explicit_ra(s: &str) -> (r: Option<u8>)
    ensures
        r == named_ra(s@),
{
    let lower: String = lowercase(s);
    let cs: Vec<char> = chars_of(lower.as_str());
    let mark: Vec<char> = chars_of("ra");
    proof {
        reveal_strlit("ra");
    }
    let mut i: usize = 0;
    while i < cs.len()
        invariant
            i <= cs@.len(),
            cs@ == unicode_lower(s@),
            mark@ == "ra"@,
            mark@.len() == 2,
            found_from(cs@, "ra"@, 0) == found_from(cs@, "ra"@, i as int),
        decreases cs@.len() - i,
    {
        if stands_at(&cs, &mark, i) {
            let end: usize = end_of_digits(&cs, i + 2);
            let digits: String = string_of_range(&cs, i + 2, end);
            match parse_digits(digits.as_str(), 100) {
                Some(n) => {
                    if n >= 50 {
                        return Some(n as u8);
                    }
                },
                None => {},
            }
            assert(marked_ra(s@) is None);
            return bare_value(s);
        }
        i += 1;
    }
    bare_value(s)
}

/// The colour rendering index that a text of two digits denotes.
fn bare_value(s: &str) -> (r: Option<u8>)
    ensures
        r == bare_ra(s@),
{
    if chars_of(s).len() != 2 {
        return None;
    }
    match parse_digits(s, 1_000) {
        Some(n) => {
            proof {
                assert(s@.drop_last().drop_last() =~= Seq::empty());
                assert(ascii_digit(s@[0]) && ascii_digit(s@[1]));
                reveal_with_fuel(digits_value, 3);
            }
            if n >= 50 {
                Some(n as u8)
            } else {
                None
            }
        },
        None => {
            proof {
                if all_digits(s@) {
                    assert(s@.drop_last().drop_last() =~= Seq::empty());
                    assert(ascii_digit(s@[0]) && ascii_digit(s@[1]));
                    reveal_with_fuel(digits_value, 3);
                }
            }
            None
        },
    }
}

/// Colour temperature and colour rendering from the two colour fields of
/// a lamp.
pub fn parse_color_strings(appearance: &str, rendering: &str) -> (r: (Option<u16>, Option<u8>))
    ensures
        r == colours(appearance@, rendering@),
{
    if let Some((cct, cri)) = parse_din_code(appearance) {
        return (Some(cct), Some(cri));
    }
    if let Some((cct, cri)) = parse_din_code(rendering) {
        return (Some(cct), Some(cri));
    }
    let cct: Option<u16> = match parse_explicit_kelvin(appearance) {
        Some(k) => Some(k),
        None => parse_explicit_kelvin(rendering),
    };
    let cri: Option<u8> = match parse_explicit_ra(rendering) {
        Some(n) => Some(n),
        None => parse_explicit_ra(appearance),
    };
    (cct, cri)
}

// ---------------------------------------------------------------------
// Light distribution files
// ---------------------------------------------------------------------

/// The symmetry that a light distribution file declares.
#[derive(Clone, Copy, PartialEq, Eq, Debug, Structural)]
pub enum LdtSymmetry {
    /// About nothing.
    Asymmetric,
    /// About the vertical axis.
    VerticalAxis,
    /// About the plane of 0 and 180 degrees.
    PlaneC0C180,
    /// About the plane of 90 and 270 degrees.
    PlaneC90C270,
    /// About both planes.
    BothPlanes,
}

/// What a light distribution file says of a lamp set.
#[derive(Debug)]
pub struct LampReading {
    /// Luminous flux, as a key.
    pub flux: i64,
    /// Power with ballast, as a key.
    pub power: i64,
    /// Colour appearance.
    pub color_appearance: String,
    /// Colour rendering group.
    pub color_rendering_group: String,
}

/// The model of [`LampReading`].
pub ghost struct LampView {
    /// Luminous flux.
    pub flux: i64,
    /// Power with ballast.
    pub power: i64,
    /// Colour appearance.
    pub color_appearance: Seq<char>,
    /// Colour rendering group.
    pub color_rendering_group: Seq<char>,
}

impl View for LampReading {
    type V = LampView;

    open spec fn view(&self) -> LampView {
        LampView {
            flux: self.flux,
            power: self.power,
            color_appearance: self.color_appearance@,
            color_rendering_group: self.color_rendering_group@,
        }
    }
}

/// What stands in a light distribution file.
#[derive(Debug)]
pub struct LdtContent {
    /// Lamp sets.
    pub lamps: Vec<LampReading>,
    /// Number of planes with intensities.
    pub planes: usize,
    /// Number of angles in a plane.
    pub angles: usize,
    /// Downward flux fraction in percent, as a key.
    pub downward: i64,
    /// Light output ratio in percent, as a key.
    pub output: i64,
    /// Symmetry.
    pub symmetry: LdtSymmetry,
}

/// The model of [`LdtContent`].
pub ghost struct ContentView {
    /// Lamp sets.
    pub lamps: Seq<LampView>,
    /// Number of planes with intensities.
    pub planes: nat,
    /// Number of angles in a plane.
    pub angles: nat,
    /// Downward flux fraction in percent.
    pub downward: i64,
    /// Light output ratio in percent.
    pub output: i64,
    /// Symmetry.
    pub symmetry: LdtSymmetry,
}

/// The models of some lamp sets.
pub open spec fn lamp_views(s: Seq<LampReading>) -> Seq<LampView> {
    Seq::new(s.len(), |i: int| s[i]@)
}

impl View for LdtContent {
    type V = ContentView;

    open spec fn view(&self) -> ContentView {
        ContentView {
            lamps: lamp_views(self.lamps@),
            planes: self.planes as nat,
            angles: self.angles as nat,
            downward: self.downward,
            output: self.output,
            symmetry: self.symmetry,
        }
    }
}

/// The summary of a light distribution: percentages and the beam angle,
/// as keys.
#[derive(Clone, Copy, PartialEq, Eq, Debug, Structural)]
pub struct LdtSummary {
    /// Light output ratio in percent.
    pub lor: i64,
    /// Downward share in percent.
    pub dlor: i64,
    /// Upward share in percent.
    pub ulor: i64,
    /// Half-peak beam angle.
    pub beam: i64,
}

/// What was read of a light distribution file.
#[derive(Debug)]
pub struct LdtReading {
    /// What stands in it.
    pub content: LdtContent,
    /// Half-peak beam angle, as a key.
    pub beam: i64,
    /// Tenth-peak field angle, as a key.
    pub field: i64,
    /// Summary.
    pub summary: LdtSummary,
}

/// The model of [`LdtReading`].
pub ghost struct LdtView {
    /// What stands in the file.
    pub content: ContentView,
    /// Half-peak beam angle.
    pub beam: i64,
    /// Tenth-peak field angle.
    pub field: i64,
    /// Summary.
    pub summary: LdtSummary,
}

impl View for LdtReading {
    type V = LdtView;

    open spec fn view(&self) -> LdtView {
        LdtView {
            content: self.content@,
            beam: self.beam,
            field: self.field,
            summary: self.summary,
        }
    }
}

/// The key of the number with the given bits. All that is no number has
/// one key.
pub open spec fn wide_number(bits: u64) -> i64 {
    if wide_nan(wide_key(bits)) {
        WIDE_NAN
    } else {
        wide_key(bits)
    }
}

/// The key of the number with the given bits.
fn number_of_bits(bits: u64) -> (k: i64)
    ensures
        k == wide_number(bits),
{
    let k: i64 = wide_key_of_bits(bits);
    if k > WIDE_INFINITY || k < -WIDE_INFINITY {
        WIDE_NAN
    } else {
        k
    }
}

/// A lamp set with its figures as bits.
struct RawLamp {
    flux: u64,
    power: u64,
    color_appearance: String,
    color_rendering_group: String,
}

/// A light distribution file with its figures as bits.
struct RawContent {
    lamps: Vec<RawLamp>,
    planes: usize,
    angles: usize,
    downward: u64,
    output: u64,
    symmetry: LdtSymmetry,
}

/// A summary with its figures as bits.
struct RawSummary {
    lor: u64,
    dlor: u64,
    ulor: u64,
    beam: u64,
}

spec fn raw_lamp(l: RawLamp) -> LampView {
    LampView {
        flux: wide_number(l.flux),
        power: wide_number(l.power),
        color_appearance: l.color_appearance@,
        color_rendering_group: l.color_rendering_group@,
    }
}

spec fn raw_content(r: Option<RawContent>) -> Option<ContentView> {
    match r {
        Some(c) => Some(
            ContentView {
                lamps: Seq::new(c.lamps@.len(), |i: int| raw_lamp(c.lamps@[i])),
                planes: c.planes as nat,
                angles: c.angles as nat,
                downward: wide_number(c.downward),
                output: wide_number(c.output),
                symmetry: c.symmetry,
            },
        ),
        None => None,
    }
}

spec fn raw_summary(r: Option<RawSummary>) -> Option<LdtSummary> {
    match r {
        Some(s) => Some(
            LdtSummary {
                lor: wide_number(s.lor),
                dlor: wide_number(s.dlor),
                ulor: wide_number(s.ulor),
                beam: wide_number(s.beam),
            },
        ),
        None => None,
    }
}

spec fn raw_number(r: Option<u64>) -> Option<i64> {
    match r {
        Some(bits) => Some(wide_number(bits)),
        None => None,
    }
}

/// What the `eulumdat` parser reads in a text; none where it refuses the
/// text.
pub uninterp spec fn parsed_ldt(text: Seq<char>) -> Option<ContentView>;

/// The half-peak beam angle that `eulumdat` computes for a text; none
/// where its parser refuses the text.
pub uninterp spec fn beam_angle_of(text: Seq<char>) -> Option<i64>;

/// The tenth-peak field angle that `eulumdat` computes for a text; none
/// where its parser refuses the text.
pub uninterp spec fn field_angle_of(text: Seq<char>) -> Option<i64>;

/// Reads a light distribution file with `eulumdat::Eulumdat::parse`.
/// Claimed: it is the text alone that decides whether the text is
/// refused and what is read in it.
#[verifier::external_body]
fn parse_ldt(text: &str) -> (r: Option<RawContent>)
    ensures
        raw_content(r) == parsed_ldt(text@),
{
    let ldt = eulumdat::Eulumdat::parse(text).ok()?;
    let lamps = ldt.lamp_sets.into_iter().map(|l| RawLamp {
        flux: l.total_luminous_flux.to_bits(), power: l.wattage_with_ballast.to_bits(),
        color_appearance: l.color_appearance, color_rendering_group: l.color_rendering_group,
    }).collect();
    let (downward, output) = (ldt.downward_flux_fraction.to_bits(), ldt.light_output_ratio.to_bits());
    let symmetry = match ldt.symmetry {
        eulumdat::Symmetry::None => LdtSymmetry::Asymmetric,
        eulumdat::Symmetry::VerticalAxis => LdtSymmetry::VerticalAxis,
        eulumdat::Symmetry::PlaneC0C180 => LdtSymmetry::PlaneC0C180,
        eulumdat::Symmetry::PlaneC90C270 => LdtSymmetry::PlaneC90C270,
        eulumdat::Symmetry::BothPlanes => LdtSymmetry::BothPlanes };
    let (planes, angles) = (ldt.intensities.len(), ldt.g_angles.len());
    Some(RawContent { lamps, planes, angles, downward, output, symmetry })
}

/// The beam angle by `eulumdat::PhotometricCalculations::beam_angle`, of
/// a text that `eulumdat::Eulumdat::parse` reads. Claimed: it is the text
/// alone that decides the angle, and there is one wherever the text is
/// read.
#[verifier::external_body]
fn ldt_beam_angle(text: &str) -> (r: Option<u64>)
    ensures
        raw_number(r) == beam_angle_of(text@),
        r is Some <==> parsed_ldt(text@) is Some,
{
    let ldt = eulumdat::Eulumdat::parse(text).ok()?;
    Some(eulumdat::PhotometricCalculations::beam_angle(&ldt).to_bits())
}

/// The field angle by `eulumdat::PhotometricCalculations::field_angle`,
/// of a text that `eulumdat::Eulumdat::parse` reads. Claimed: it is the
/// text alone that decides the angle, and there is one wherever the text
/// is read.
#[verifier::external_body]
fn ldt_field_angle(text: &str) -> (r: Option<u64>)
    ensures
        raw_number(r) == field_angle_of(text@),
        r is Some <==> parsed_ldt(text@) is Some,
{
    let ldt = eulumdat::Eulumdat::parse(text).ok()?;
    Some(eulumdat::PhotometricCalculations::field_angle(&ldt).to_bits())
}

/// The summary of what stands in a file with the given beam angle: the
/// percentages of the file, with the upward share as what the downward
/// share leaves of a hundred.
pub open spec fn summary_of(c: ContentView, beam: i64) -> LdtSummary {
    LdtSummary {
        lor: c.output,
        dlor: c.downward,
        ulor: difference_of(WIDE_100, c.downward),
        beam,
    }
}

/// The summary by `eulumdat::PhotometricSummary::from_eulumdat`, of a
/// text that `eulumdat::Eulumdat::parse` reads. Claimed: its light output
/// ratio and its downward share are the percentages of the file, its
/// upward share is a hundred less the downward share, and its beam angle
/// is that of `eulumdat::PhotometricCalculations::beam_angle`.
#[verifier::external_body]
fn ldt_summary(text: &str) -> (r: Option<RawSummary>)
    ensures
        raw_summary(r) == (match (parsed_ldt(text@), beam_angle_of(text@)) {
            (Some(c), Some(beam)) => Some(summary_of(c, beam)),
            _ => None,
        }),
{
    let ldt = eulumdat::Eulumdat::parse(text).ok()?;
    let s = eulumdat::PhotometricSummary::from_eulumdat(&ldt);
    let (lor, dlor, ulor) = (s.lor.to_bits(), s.dlor.to_bits(), s.ulor.to_bits());
    Some(RawSummary { lor, dlor, ulor, beam: s.beam_angle.to_bits() })
}

/// What is read of a light distribution file; none where the text is not
/// one.
pub open spec fn ldt_reading(text: Seq<char>) -> Option<LdtView> {
    match (parsed_ldt(text), beam_angle_of(text), field_angle_of(text)) {
        (Some(content), Some(beam), Some(field)) => Some(
            LdtView { content, beam, field, summary: summary_of(content, beam) },
        ),
        _ => None,
    }
}

/// The model of what may have been read.
pub open spec fn reading_view(r: Option<LdtReading>) -> Option<LdtView> {
    match r {
        Some(l) => Some(l@),
        None => None,
    }
}

/// The lamp sets with their figures as keys.
fn lamps_of(raw: Vec<RawLamp>) -> (r: Vec<LampReading>)
    ensures
        lamp_views(r@) == Seq::new(raw@.len(), |i: int| raw_lamp(raw@[i])),
{
    let mut r: Vec<LampReading> = Vec::new();
    let mut i: usize = 0;
    while i < raw.len()
        invariant
            i <= raw@.len(),
            r@.len() == i,
            forall|k: int| 0 <= k < i ==> (#[trigger] r@[k])@ == raw_lamp(raw@[k]),
        decreases raw@.len() - i,
    {
        let lamp: LampReading = LampReading {
            flux: number_of_bits(raw[i].flux),
            power: number_of_bits(raw[i].power),
            color_appearance: raw[i].color_appearance.clone(),
            color_rendering_group: raw[i].color_rendering_group.clone(),
        };
        r.push(lamp);
        i += 1;
    }
    proof {
        assert(lamp_views(r@) =~= Seq::new(raw@.len(), |i: int| raw_lamp(raw@[i])));
    }
    r
}

/// Reads a light distribution file.
pub fn read_ldt(text: &str) -> (r: Option<LdtReading>)
    ensures
        reading_view(r) == ldt_reading(text@),
        r is Some <==> parsed_ldt(text@) is Some,
{
    let raw: RawContent = match parse_ldt(text) {
        Some(c) => c,
        None => return None,
    };
    let beam: i64 = match ldt_beam_angle(text) {
        Some(bits) => number_of_bits(bits),
        None => return None,
    };
    let field: i64 = match ldt_field_angle(text) {
        Some(bits) => number_of_bits(bits),
        None => return None,
    };
    let summary: LdtSummary = match ldt_summary(text) {
        Some(s) => LdtSummary {
            lor: number_of_bits(s.lor),
            dlor: number_of_bits(s.dlor),
            ulor: number_of_bits(s.ulor),
            beam: number_of_bits(s.beam),
        },
        None => return None,
    };
    let content: LdtContent = LdtContent {
        planes: raw.planes,
        angles: raw.angles,
        downward: number_of_bits(raw.downward),
        output: number_of_bits(raw.output),
        symmetry: raw.symmetry,
        lamps: lamps_of(raw.lamps),
    };
    Some(LdtReading { content, beam, field, summary })
}

/// Whether a file has intensities and angles.
pub open spec fn has_intensities(l: LdtView) -> bool {
    l.content.planes > 0 && l.content.angles > 0
}

/// Whether `k` is the key of a positive finite number.
pub open spec fn wide_positive(k: i64) -> bool {
    wide_finite(k) && k > 0
}

/// The label of a light distribution that is symmetric about the
/// vertical axis, by its beam angle.
pub open spec fn lateral_label(beam: i64) -> Seq<char> {
    if !wide_positive(beam) {
        "Laterally symmetrical medium"@
    } else if wide_le(beam, WIDE_30) {
        "Laterally symmetrical narrow"@
    } else if wide_le(beam, WIDE_60) {
        "Laterally symmetrical medium"@
    } else {
        "Laterally symmetrical wide"@
    }
}

/// Whether a beam is at least as wide as `least`.
pub open spec fn beam_reaches(beam: i64, least: i64) -> bool {
    wide_finite(beam) && wide_le(least, beam)
}

/// The label of the light distribution that a file shows; none where it
/// shows too little.
pub open spec fn distribution_label(l: LdtView) -> Option<Seq<char>> {
    let dlor = l.summary.dlor;
    let ulor = l.summary.ulor;
    let beam = l.summary.beam;
    if !has_intensities(l) || wide_lt(l.summary.lor, WIDE_5) {
        None
    } else if wide_le(WIDE_80, ulor) {
        Some("Indirect"@)
    } else if wide_le(WIDE_20, dlor) && wide_le(WIDE_20, ulor) {
        if wide_le(magnitude(difference_of(dlor, ulor)), WIDE_20) && beam_reaches(beam, WIDE_150) {
            Some("Diffuse full spherical"@)
        } else {
            Some("Direct indirect"@)
        }
    } else if wide_lt(dlor, WIDE_50) {
        Some("Other"@)
    } else if wide_le(WIDE_80, dlor) && beam_reaches(beam, WIDE_120) {
        Some("Diffuse half spherical"@)
    } else {
        match l.content.symmetry {
            LdtSymmetry::VerticalAxis => Some(lateral_label(beam)),
            LdtSymmetry::PlaneC0C180 => Some("Symmetric about 0-180 plane"@),
            LdtSymmetry::PlaneC90C270 => Some("Symmetric about 90-270 plane"@),
            LdtSymmetry::BothPlanes => Some("Symmetrical in each quadrant"@),
            LdtSymmetry::Asymmetric => if wide_le(WIDE_90, dlor) && wide_le(ulor, WIDE_5) {
                Some("Direct"@)
            } else {
                Some("Asymmetrical"@)
            },
        }
    }
}

/// The id of the light distribution that a file shows.
pub open spec fn distribution_id(l: LdtView) -> Option<u8> {
    match distribution_label(l) {
        Some(label) => value_id(Axis::LightDistribution, label),
        None => None,
    }
}

/// The symmetry hint for a declared symmetry.
pub open spec fn hint_of_symmetry(s: LdtSymmetry) -> PhotometricSymmetryHint {
    match s {
        LdtSymmetry::Asymmetric => PhotometricSymmetryHint::Asymmetric,
        LdtSymmetry::VerticalAxis => PhotometricSymmetryHint::Rotational,
        LdtSymmetry::PlaneC0C180 => PhotometricSymmetryHint::Axial,
        LdtSymmetry::PlaneC90C270 => PhotometricSymmetryHint::Axial,
        LdtSymmetry::BothPlanes => PhotometricSymmetryHint::Rotational,
    }
}

/// Flux by power, where both are known and the power is positive.
pub open spec fn flux_by_power(flux: Option<i32>, power: Option<i32>) -> Option<i32> {
    if flux is Some && power is Some && 0 < power->0 <= INFINITY_KEY {
        Some(quotient_of(flux->0, power->0))
    } else {
        None
    }
}

/// Flux by power, where both are known and positive.
pub open spec fn efficacy_of(flux: Option<i32>, power: Option<i32>) -> Option<i32> {
    if flux is Some && 0 < flux->0 <= INFINITY_KEY {
        flux_by_power(flux, power)
    } else {
        None
    }
}

/// An angle, where there are intensities to take it from.
pub open spec fn angle_of(l: LdtView, angle: i64) -> Option<i32> {
    if has_intensities(l) && wide_positive(angle) {
        Some(narrowed(angle))
    } else {
        None
    }
}

/// The downward share of the light as a ratio, where it is positive.
pub open spec fn downward_ratio(c: ContentView) -> Option<i32> {
    if wide_lt(0, c.downward) {
        Some(narrowed(hundredth_of(c.downward)))
    } else {
        None
    }
}

/// The upward share of the light as a ratio, where the light output is
/// positive: what the downward share leaves of the light output.
pub open spec fn upward_ratio(c: ContentView) -> Option<i32> {
    if wide_lt(0, c.output) {
        Some(
            narrowed(
                not_below_zero(difference_of(hundredth_of(c.output), hundredth_of(c.downward))),
            ),
        )
    } else {
        None
    }
}

/// The figures that a light distribution file tells. Flux, power and
/// colours are those of the first lamp set.
pub open spec fn ldt_stats(l: LdtView) -> PhotometryStats {
    let lamps = l.content.lamps;
    let flux = if lamps.len() > 0 {
        Some(narrowed(lamps[0].flux))
    } else {
        None
    };
    let power = if lamps.len() > 0 {
        Some(narrowed(lamps[0].power))
    } else {
        None
    };
    let (cct, cri) = if lamps.len() > 0 {
        colours(lamps[0].color_appearance, lamps[0].color_rendering_group)
    } else {
        (None, None)
    };
    PhotometryStats {
        flux_lm: flux,
        power_w: power,
        efficacy_lm_w: efficacy_of(flux, power),
        cct_k: cct,
        cri_ra: cri,
        r9: None,
        beam_deg: angle_of(l, l.beam),
        field_deg: angle_of(l, l.field),
        ulor: upward_ratio(l.content),
        dlor: downward_ratio(l.content),
        symmetry: hint_of_symmetry(l.content.symmetry),
        light_distribution: distribution_id(l),
    }
}

/// Every file with intensities and a light output of five percent or
/// more has a label.
pub proof fn lit_files_are_labelled(l: LdtView)
    requires
        has_intensities(l),
        wide_le(WIDE_5, l.summary.lor),
    ensures
        distribution_label(l) is Some,
{
}

/// What is read of a text is what the parser read in it, with the angles
/// that were computed for it.
pub proof fn readings_are_of_the_text(text: Seq<char>)
    requires
        parsed_ldt(text) is Some,
        beam_angle_of(text) is Some,
        field_angle_of(text) is Some,
    ensures
        ldt_reading(text) is Some,
        ldt_reading(text)->0.content == parsed_ldt(text)->0,
        ldt_reading(text)->0.beam == beam_angle_of(text)->0,
        ldt_reading(text)->0.field == field_angle_of(text)->0,
        text_stats(text) == Some(ldt_stats(ldt_reading(text)->0)),
{
}

/// Whether the shares and the beam of a file are numbers.
pub open spec fn summary_in_numbers(l: LdtView) -> bool {
    &&& wide_finite(l.summary.lor)
    &&& wide_finite(l.summary.dlor)
    &&& wide_finite(l.summary.ulor)
    &&& wide_finite(l.summary.beam)
}

/// Whether a file has enough light to tell its distribution.
pub open spec fn is_lit(l: LdtView) -> bool {
    has_intensities(l) && summary_in_numbers(l) && l.summary.lor >= WIDE_5
}

/// Whether the light of a file goes down for the greater part: fifty
/// percent or more down, below twenty up.
pub open spec fn mostly_down(l: LdtView) -> bool {
    is_lit(l) && l.summary.dlor >= WIDE_50 && l.summary.ulor < WIDE_20
}

/// Without intensities, angles or five percent of the light there is no
/// distribution.
pub proof fn unlit_files_have_no_distribution(l: LdtView)
    requires
        l.content.planes == 0 || l.content.angles == 0 || (wide_finite(l.summary.lor)
            && l.summary.lor < WIDE_5),
    ensures
        ldt_stats(l).light_distribution is None,
{
}

/// Eighty percent upward is indirect, whatever goes down and however the
/// file is symmetric.
pub proof fn upward_light_is_indirect(l: LdtView)
    requires
        is_lit(l),
        l.summary.ulor >= WIDE_80,
    ensures
        ldt_stats(l).light_distribution == value_id(Axis::LightDistribution, "Indirect"@),
{
}

/// Twenty percent and more each way is direct and indirect at once,
/// unless the two shares are close and the beam is very wide: then it is
/// diffuse all round.
pub proof fn light_both_ways(l: LdtView)
    requires
        is_lit(l),
        WIDE_20 <= l.summary.ulor < WIDE_80,
        l.summary.dlor >= WIDE_20,
    ensures
        l.summary.beam < WIDE_150 ==> ldt_stats(l).light_distribution == value_id(
            Axis::LightDistribution,
            "Direct indirect"@,
        ),
        l.summary.beam >= WIDE_150 && l.summary.dlor == l.summary.ulor ==> ldt_stats(
            l,
        ).light_distribution == value_id(Axis::LightDistribution, "Diffuse full spherical"@),
        wide_finite(difference_of(l.summary.dlor, l.summary.ulor)) && (difference_of(
            l.summary.dlor,
            l.summary.ulor,
        ) > WIDE_20 || difference_of(l.summary.dlor, l.summary.ulor) < -WIDE_20) ==> ldt_stats(
            l,
        ).light_distribution == value_id(Axis::LightDistribution, "Direct indirect"@),
        l.summary.beam >= WIDE_150 && -WIDE_20 <= difference_of(l.summary.dlor, l.summary.ulor)
            <= WIDE_20 ==> ldt_stats(l).light_distribution == value_id(
            Axis::LightDistribution,
            "Diffuse full spherical"@,
        ),
{
    let (a, b) = (l.summary.dlor, l.summary.ulor);
    if a == b {
        crate::double::trivial_differences(a);
        crate::double::difference_is_unique(a, a, difference_of(a, a), 0);
    }
}

/// What goes neither up nor down for the greater part is of another kind,
/// and nothing else is.
#[verifier::spinoff_prover]
pub proof fn other_is_what_goes_neither_way(l: LdtView)
    requires
        is_lit(l),
    ensures
        distribution_label(l) == Some("Other"@) <==> l.summary.dlor < WIDE_50 && l.summary.ulor
            < WIDE_80 && !(l.summary.dlor >= WIDE_20 && l.summary.ulor >= WIDE_20),
        distribution_label(l) == Some("Other"@) ==> ldt_stats(l).light_distribution == value_id(
            Axis::LightDistribution,
            "Other"@,
        ),
{
    reveal_strlit("Other");
    reveal_strlit("Indirect");
    reveal_strlit("Direct indirect");
    reveal_strlit("Diffuse full spherical");
    reveal_strlit("Diffuse half spherical");
    reveal_strlit("Symmetric about 0-180 plane");
    reveal_strlit("Symmetric about 90-270 plane");
    reveal_strlit("Symmetrical in each quadrant");
    reveal_strlit("Direct");
    reveal_strlit("Asymmetrical");
    reveal_strlit("Laterally symmetrical narrow");
    reveal_strlit("Laterally symmetrical medium");
    reveal_strlit("Laterally symmetrical wide");
    assert("Other"@.len() == 5);
    assert("Indirect"@.len() > 5);
    assert("Direct indirect"@.len() > 5);
    assert("Diffuse full spherical"@.len() > 5);
    assert("Diffuse half spherical"@.len() > 5);
    assert("Symmetric about 0-180 plane"@.len() > 5);
    assert("Symmetric about 90-270 plane"@.len() > 5);
    assert("Symmetrical in each quadrant"@.len() > 5);
    assert("Direct"@.len() > 5);
    assert("Asymmetrical"@.len() > 5);
    assert("Laterally symmetrical narrow"@.len() > 5);
    assert("Laterally symmetrical medium"@.len() > 5);
    assert("Laterally symmetrical wide"@.len() > 5);
}

/// Eighty percent downward in a beam of a hundred and twenty degrees or
/// more is diffuse, however the file is symmetric.
pub proof fn wide_downward_light_is_diffuse(l: LdtView)
    requires
        mostly_down(l),
        l.summary.dlor >= WIDE_80,
        l.summary.beam >= WIDE_120,
    ensures
        ldt_stats(l).light_distribution == value_id(
            Axis::LightDistribution,
            "Diffuse half spherical"@,
        ),
{
}

/// Whether the light of a file goes down without filling the lower half
/// of the room.
pub open spec fn directed_down(l: LdtView) -> bool {
    mostly_down(l) && (l.summary.dlor < WIDE_80 || l.summary.beam < WIDE_120)
}

/// A downward light that is symmetric about the vertical axis is narrow
/// up to thirty degrees, medium up to sixty and wide beyond; without a
/// beam it is medium.
pub proof fn round_downward_light_goes_by_its_beam(l: LdtView)
    requires
        directed_down(l),
        l.content.symmetry == LdtSymmetry::VerticalAxis,
    ensures
        0 < l.summary.beam <= WIDE_30 ==> ldt_stats(l).light_distribution == value_id(
            Axis::LightDistribution,
            "Laterally symmetrical narrow"@,
        ),
        WIDE_30 < l.summary.beam <= WIDE_60 ==> ldt_stats(l).light_distribution == value_id(
            Axis::LightDistribution,
            "Laterally symmetrical medium"@,
        ),
        l.summary.beam > WIDE_60 ==> ldt_stats(l).light_distribution == value_id(
            Axis::LightDistribution,
            "Laterally symmetrical wide"@,
        ),
        l.summary.beam <= 0 ==> ldt_stats(l).light_distribution == value_id(
            Axis::LightDistribution,
            "Laterally symmetrical medium"@,
        ),
{
}

/// A downward light of another symmetry goes by its planes; without any
/// it is direct where ninety percent go down and at most five up, and
/// asymmetrical otherwise.
pub proof fn downward_light_goes_by_its_planes(l: LdtView)
    requires
        directed_down(l),
    ensures
        l.content.symmetry == LdtSymmetry::PlaneC0C180 ==> ldt_stats(l).light_distribution
            == value_id(Axis::LightDistribution, "Symmetric about 0-180 plane"@),
        l.content.symmetry == LdtSymmetry::PlaneC90C270 ==> ldt_stats(l).light_distribution
            == value_id(Axis::LightDistribution, "Symmetric about 90-270 plane"@),
        l.content.symmetry == LdtSymmetry::BothPlanes ==> ldt_stats(l).light_distribution
            == value_id(Axis::LightDistribution, "Symmetrical in each quadrant"@),
        l.content.symmetry == LdtSymmetry::Asymmetric && l.summary.dlor >= WIDE_90
            && l.summary.ulor <= WIDE_5 ==> ldt_stats(l).light_distribution == value_id(
            Axis::LightDistribution,
            "Direct"@,
        ),
        l.content.symmetry == LdtSymmetry::Asymmetric && (l.summary.dlor < WIDE_90
            || l.summary.ulor > WIDE_5) ==> ldt_stats(l).light_distribution == value_id(
            Axis::LightDistribution,
            "Asymmetrical"@,
        ),
{
}

/// Flux, power and colours are those of the first lamp set, and unknown
/// without one; other lamp sets do not matter.
pub proof fn first_lamp_set_is_read(l: LdtView, more: Seq<LampView>)
    ensures
        l.content.lamps.len() == 0 ==> {
            let s = ldt_stats(l);
            s.flux_lm is None && s.power_w is None && s.efficacy_lm_w is None && s.cct_k is None
                && s.cri_ra is None
        },
        l.content.lamps.len() > 0 ==> {
            let s = ldt_stats(l);
            let lamp = l.content.lamps[0];
            &&& s.flux_lm == Some(narrowed(lamp.flux))
            &&& s.power_w == Some(narrowed(lamp.power))
            &&& (s.cct_k, s.cri_ra) == colours(lamp.color_appearance, lamp.color_rendering_group)
            &&& ldt_stats(
                LdtView {
                    content: ContentView { lamps: seq![lamp] + more, ..l.content },
                    ..l
                },
            ) == s
        },
{
    if l.content.lamps.len() > 0 {
        assert((seq![l.content.lamps[0]] + more)[0] == l.content.lamps[0]);
    }
}

/// The efficacy is the flux by the power, and unknown where either is
/// unknown or not positive.
pub proof fn efficacy_is_flux_by_power(l: LdtView)
    ensures
        ({
            let s = ldt_stats(l);
            let positive = |k: Option<i32>| k is Some && 0 < k->0 <= 0x7f80_0000;
            &&& s.efficacy_lm_w is Some <==> positive(s.flux_lm) && positive(s.power_w)
            &&& s.efficacy_lm_w is Some ==> s.efficacy_lm_w->0 == quotient_of(
                s.flux_lm->0,
                s.power_w->0,
            )
        }),
{
}

/// The angles are those of the file, each under its own heading, where
/// there are intensities and the angle is a positive number.
pub proof fn angles_are_read(l: LdtView)
    ensures
        ldt_stats(l).beam_deg is Some <==> l.content.planes > 0 && l.content.angles > 0 && 0
            < l.beam < WIDE_INFINITY,
        ldt_stats(l).beam_deg is Some ==> ldt_stats(l).beam_deg->0 == narrowed(l.beam),
        ldt_stats(l).field_deg is Some <==> l.content.planes > 0 && l.content.angles > 0 && 0
            < l.field < WIDE_INFINITY,
        ldt_stats(l).field_deg is Some ==> ldt_stats(l).field_deg->0 == narrowed(l.field),
{
}

/// The downward share is known where it is positive, the upward one where
/// the light output is. What goes down and up makes up the light output:
/// where all of it goes down, nothing goes up.
pub proof fn shares_are_read(l: LdtView)
    requires
        wide_finite(l.content.downward),
        wide_finite(l.content.output),
    ensures
        ldt_stats(l).dlor is Some <==> l.content.downward > 0,
        l.content.downward > 0 ==> ldt_stats(l).dlor->0 == narrowed(
            hundredth_of(l.content.downward),
        ),
        ldt_stats(l).ulor is Some <==> l.content.output > 0,
        l.content.output > 0 && wide_finite(hundredth_of(l.content.output)) && l.content.downward
            == l.content.output ==> ldt_stats(l).ulor->0 == narrowed(0),
        l.content.output > 0 && wide_finite(hundredth_of(l.content.output)) && hundredth_of(
            l.content.downward,
        ) == 0 && hundredth_of(l.content.output) >= 0 ==> ldt_stats(l).ulor->0 == narrowed(
            hundredth_of(l.content.output),
        ),
{
    let h = hundredth_of(l.content.output);
    if wide_finite(h) {
        crate::double::trivial_differences(h);
        crate::double::difference_is_unique(h, h, difference_of(h, h), 0);
        crate::double::difference_is_unique(h, 0, difference_of(h, 0), h);
    }
}

/// A symmetry about the axis or about both planes is rotational, one
/// about a single plane axial.
pub proof fn symmetry_is_read(l: LdtView)
    ensures
        ldt_stats(l).symmetry == PhotometricSymmetryHint::Rotational <==> l.content.symmetry
            == LdtSymmetry::VerticalAxis || l.content.symmetry == LdtSymmetry::BothPlanes,
        ldt_stats(l).symmetry == PhotometricSymmetryHint::Axial <==> l.content.symmetry
            == LdtSymmetry::PlaneC0C180 || l.content.symmetry == LdtSymmetry::PlaneC90C270,
        ldt_stats(l).symmetry == PhotometricSymmetryHint::Asymmetric <==> l.content.symmetry
            == LdtSymmetry::Asymmetric,
        ldt_stats(l).r9 is None,
{
}

/// The label of a laterally symmetrical distribution.
fn beam_class_label(beam: i64) -> (r: &'static str)
    ensures
        r@ == lateral_label(beam),
{
    if !is_wide_finite(beam) || beam <= 0 {
        "Laterally symmetrical medium"
    } else if wide_at_most(beam, WIDE_30) {
        "Laterally symmetrical narrow"
    } else if wide_at_most(beam, WIDE_60) {
        "Laterally symmetrical medium"
    } else {
        "Laterally symmetrical wide"
    }
}

/// The id of a light distribution.
pub fn canon(label: &str) -> (r: Option<u8>)
    ensures
        r == value_id(Axis::LightDistribution, label@),
{
    id_of(Axis::LightDistribution, label)
}

/// The id of the light distribution that a file shows.
pub fn classify_light_distribution(l: &LdtReading) -> (r: Option<u8>)
    ensures
        r == distribution_id(l@),
{
    if l.content.planes == 0 || l.content.angles == 0 || wide_below(l.summary.lor, WIDE_5) {
        return None;
    }
    let dlor: i64 = l.summary.dlor;
    let ulor: i64 = l.summary.ulor;
    let beam: i64 = l.summary.beam;
    if wide_at_most(WIDE_80, ulor) {
        return canon("Indirect");
    }
    if wide_at_most(WIDE_20, dlor) && wide_at_most(WIDE_20, ulor) {
        let gap: i64 = magnitude_of(difference(dlor, ulor));
        if wide_at_most(gap, WIDE_20) && is_wide_finite(beam) && wide_at_most(WIDE_150, beam) {
            return canon("Diffuse full spherical");
        }
        return canon("Direct indirect");
    }
    if wide_below(dlor, WIDE_50) {
        return canon("Other");
    }
    if wide_at_most(WIDE_80, dlor) && is_wide_finite(beam) && wide_at_most(WIDE_120, beam) {
        return canon("Diffuse half spherical");
    }
    match l.content.symmetry {
        LdtSymmetry::VerticalAxis => canon(beam_class_label(beam)),
        LdtSymmetry::PlaneC0C180 => canon("Symmetric about 0-180 plane"),
        LdtSymmetry::PlaneC90C270 => canon("Symmetric about 90-270 plane"),
        LdtSymmetry::BothPlanes => canon("Symmetrical in each quadrant"),
        LdtSymmetry::Asymmetric => {
            if wide_at_most(WIDE_90, dlor) && wide_at_most(ulor, WIDE_5) {
                canon("Direct")
            } else {
                canon("Asymmetrical")
            }
        },
    }
}

/// Flux by power, where both are known and positive.
pub fn efficacy(flux: Option<i32>, power: Option<i32>) -> (r: Option<i32>)
    ensures
        r == efficacy_of(flux, power),
{
    match flux {
        Some(f) => {
            if 0 < f && f <= INFINITY_KEY {
                divide_by_power(flux, power)
            } else {
                None
            }
        },
        None => None,
    }
}

/// Flux by power, where both are known and the power is positive.
pub fn divide_by_power(flux: Option<i32>, power: Option<i32>) -> (r: Option<i32>)
    ensures
        r == flux_by_power(flux, power),
{
    match (flux, power) {
        (Some(f), Some(p)) => {
            if 0 < p && p <= INFINITY_KEY {
                Some(quotient_key(f, p))
            } else {
                None
            }
        },
        _ => None,
    }
}

/// An angle, where there are intensities to take it from.
fn angle_figure(l: &LdtReading, angle: i64) -> (r: Option<i32>)
    ensures
        r == angle_of(l@, angle),
{
    if l.content.planes > 0 && l.content.angles > 0 && is_wide_finite(angle) && angle > 0 {
        Some(narrow(angle))
    } else {
        None
    }
}

/// The figures that a light distribution file tells, by what was read of
/// it.
pub fn stats_of_reading(l: &LdtReading) -> (r: PhotometryStats)
    ensures
        r == ldt_stats(l@),
{
    let mut flux_lm: Option<i32> = None;
    let mut power_w: Option<i32> = None;
    let mut cct_k: Option<u16> = None;
    let mut cri_ra: Option<u8> = None;
    if l.content.lamps.len() > 0 {
        let lamp: &LampReading = &l.content.lamps[0];
        proof {
            assert(l@.content.lamps[0] == lamp@);
        }
        flux_lm = Some(narrow(lamp.flux));
        power_w = Some(narrow(lamp.power));
        let (cct, cri) = parse_color_strings(
            lamp.color_appearance.as_str(),
            lamp.color_rendering_group.as_str(),
        );
        cct_k = cct;
        cri_ra = cri;
    }
    let symmetry: PhotometricSymmetryHint = match l.content.symmetry {
        LdtSymmetry::Asymmetric => PhotometricSymmetryHint::Asymmetric,
        LdtSymmetry::VerticalAxis => PhotometricSymmetryHint::Rotational,
        LdtSymmetry::PlaneC0C180 => PhotometricSymmetryHint::Axial,
        LdtSymmetry::PlaneC90C270 => PhotometricSymmetryHint::Axial,
        LdtSymmetry::BothPlanes => PhotometricSymmetryHint::Rotational,
    };
    let dlor: Option<i32> = if wide_below(0, l.content.downward) {
        Some(narrow(hundredth(l.content.downward)))
    } else {
        None
    };
    let ulor: Option<i32> = if wide_below(0, l.content.output) {
        let total: i64 = hundredth(l.content.output);
        let down: i64 = hundredth(l.content.downward);
        Some(narrow(at_least_zero(difference(total, down))))
    } else {
        None
    };
    PhotometryStats {
        flux_lm,
        power_w,
        efficacy_lm_w: efficacy(flux_lm, power_w),
        cct_k,
        cri_ra,
        r9: None,
        beam_deg: angle_figure(l, l.beam),
        field_deg: angle_figure(l, l.field),
        ulor,
        dlor,
        symmetry,
        light_distribution: classify_light_distribution(l),
    }
}

/// The figures that a light distribution file tells; none where the text
/// is not such a file.
pub open spec fn text_stats(text: Seq<char>) -> Option<PhotometryStats> {
    match ldt_reading(text) {
        Some(l) => Some(ldt_stats(l)),
        None => None,
    }
}

/// The figures that a light distribution file tells; none where the text
/// is not such a file.
pub fn parse_ldt_to_stats(ldt_str: &str) -> (r: Option<PhotometryStats>)
    ensures
        r == text_stats(ldt_str@),
        r is Some <==> parsed_ldt(ldt_str@) is Some,
{
    match read_ldt(ldt_str) {
        Some(l) => Some(stats_of_reading(&l)),
        None => None,
    }
}

// ---------------------------------------------------------------------
// Plausible figures
// ---------------------------------------------------------------------

/// Greatest plausible flux: a million lumens, as a key.
pub const FLUX_MAX_LM: i32 = 0x4974_2400;

/// Greatest plausible power: ten thousand watts, as a key.
pub const POWER_MAX_W: i32 = 0x461c_4000;

/// Greatest plausible efficacy: three hundred lumens per watt, as a key.
pub const EFFICACY_MAX_LM_W: i32 = 0x4396_0000;

/// Greatest angle: three hundred and sixty degrees, as a key.
pub const BEAM_MAX_DEG: i32 = 0x43b4_0000;

/// Greatest plausible depth of a recess (mm).
pub const DEPTH_MAX_MM: u32 = 1_000;

/// The limits are the keys of the numbers that they stand for.
pub proof fn limits_are_whole()
    ensures
        is_whole(FLUX_MAX_LM, 1_000_000),
        is_whole(POWER_MAX_W, 10_000),
        is_whole(EFFICACY_MAX_LM_W, 300),
        is_whole(BEAM_MAX_DEG, 360),
{
    lemma2_to64();
    whole_limit(FLUX_MAX_LM, 1_000_000, 4);
    whole_limit(POWER_MAX_W, 10_000, 10);
    whole_limit(EFFICACY_MAX_LM_W, 300, 15);
    whole_limit(BEAM_MAX_DEG, 360, 15);
}

proof fn whole_limit(k: i32, n: nat, s: nat)
    requires
        s <= 23,
        0x80_0000 <= n * pow2(s) < 0x100_0000,
        k == (150 - s) * 0x80_0000 + (n * pow2(s) - 0x80_0000),
    ensures
        is_whole(k, n),
{
    let m = n * pow2(s);
    assert(k / 0x80_0000 == 150 - s);
    assert(k % 0x80_0000 == m - 0x80_0000);
    lemma_pow2_adds(s, (149 - s) as nat);
    assert((n * pow2(s)) * pow2((149 - s) as nat) == n * (pow2(s) * pow2((149 - s) as nat)))
        by (nonlinear_arith);
}

/// A figure, where it is finite, not negative and at most `cap`.
pub open spec fn kept(v: Option<i32>, cap: i32) -> Option<i32> {
    if v is Some && finite_key(v->0) && 0 <= v->0 <= cap {
        v
    } else {
        None
    }
}

/// The plausible ones of some figures. The efficacy is that of the
/// plausible flux and power where both are known.
pub open spec fn plausible(p: PhotometryStats) -> PhotometryStats {
    let flux = kept(p.flux_lm, FLUX_MAX_LM);
    let power = kept(p.power_w, POWER_MAX_W);
    PhotometryStats {
        flux_lm: flux,
        power_w: power,
        efficacy_lm_w: if flux is Some && power is Some && power->0 > 0 {
            kept(Some(quotient_of(flux->0, power->0)), EFFICACY_MAX_LM_W)
        } else {
            kept(p.efficacy_lm_w, EFFICACY_MAX_LM_W)
        },
        beam_deg: kept(p.beam_deg, BEAM_MAX_DEG),
        field_deg: kept(p.field_deg, BEAM_MAX_DEG),
        ..p
    }
}

/// Plausible figures stay as they are.
pub proof fn plausible_is_idempotent(p: PhotometryStats)
    ensures
        plausible(plausible(p)) == plausible(p),
{
}

/// Whether a figure is absent or within its limit.
pub open spec fn within(v: Option<i32>, cap: i32) -> bool {
    v matches Some(k) ==> finite_key(k) && 0 <= k <= cap
}

/// No figure outside its limit is plausible.
pub proof fn plausible_is_within(p: PhotometryStats)
    ensures
        within(plausible(p).flux_lm, FLUX_MAX_LM),
        within(plausible(p).power_w, POWER_MAX_W),
        within(plausible(p).efficacy_lm_w, EFFICACY_MAX_LM_W),
        within(plausible(p).beam_deg, BEAM_MAX_DEG),
        within(plausible(p).field_deg, BEAM_MAX_DEG),
{
}

/// What is within its limit is kept as it is, and what no limit is set
/// for is not touched.
pub proof fn plausible_figures_stay(p: PhotometryStats)
    ensures
        ({
            let r = plausible(p);
            let fits = |v: Option<i32>, cap: i32| v is Some && 0 <= v->0 <= cap;
            &&& fits(p.flux_lm, FLUX_MAX_LM) <==> r.flux_lm is Some
            &&& r.flux_lm is Some ==> r.flux_lm == p.flux_lm
            &&& fits(p.power_w, POWER_MAX_W) <==> r.power_w is Some
            &&& r.power_w is Some ==> r.power_w == p.power_w
            &&& fits(p.beam_deg, BEAM_MAX_DEG) <==> r.beam_deg is Some
            &&& r.beam_deg is Some ==> r.beam_deg == p.beam_deg
            &&& fits(p.field_deg, BEAM_MAX_DEG) <==> r.field_deg is Some
            &&& r.field_deg is Some ==> r.field_deg == p.field_deg
            &&& r.cct_k == p.cct_k && r.cri_ra == p.cri_ra && r.r9 == p.r9
            &&& r.ulor == p.ulor && r.dlor == p.dlor
            &&& r.symmetry == p.symmetry && r.light_distribution == p.light_distribution
        }),
{
}

/// The efficacy agrees with plausible flux and power where the power is
/// positive, and is the one that was given where either is missing.
pub proof fn plausible_efficacy_agrees(p: PhotometryStats)
    ensures
        ({
            let r = plausible(p);
            &&& r.flux_lm is Some && r.power_w is Some && r.power_w->0 > 0 && r.efficacy_lm_w is Some
                ==> r.efficacy_lm_w->0 == quotient_of(r.flux_lm->0, r.power_w->0)
            &&& r.flux_lm is Some && r.power_w is Some && r.power_w->0 > 0 && 0 <= quotient_of(
                r.flux_lm->0,
                r.power_w->0,
            ) <= EFFICACY_MAX_LM_W ==> r.efficacy_lm_w is Some
            &&& (r.flux_lm is None || r.power_w is None) && p.efficacy_lm_w is Some && 0
                <= p.efficacy_lm_w->0 <= EFFICACY_MAX_LM_W ==> r.efficacy_lm_w == p.efficacy_lm_w
            &&& (r.flux_lm is None || r.power_w is None) && p.efficacy_lm_w is None
                ==> r.efficacy_lm_w is None
        }),
{
}

/// A recess is at most a metre deep.
pub proof fn depth_limit_is_a_metre()
    ensures
        DEPTH_MAX_MM == 1000,
{
}

/// A figure, where it is plausible.
fn keep(v: Option<i32>, cap: i32) -> (r: Option<i32>)
    ensures
        r == kept(v, cap),
{
    match v {
        Some(k) => {
            if is_finite_key(k) && 0 <= k && k <= cap {
                Some(k)
            } else {
                None
            }
        },
        None => None,
    }
}

/// Drops the figures that are not plausible.
pub fn sanitize_photometry(p: &mut PhotometryStats)
    ensures
        *final(p) == plausible(*old(p)),
{
    let flux: Option<i32> = keep(p.flux_lm, FLUX_MAX_LM);
    let power: Option<i32> = keep(p.power_w, POWER_MAX_W);
    let given: Option<i32> = keep(p.efficacy_lm_w, EFFICACY_MAX_LM_W);
    p.flux_lm = flux;
    p.power_w = power;
    p.beam_deg = keep(p.beam_deg, BEAM_MAX_DEG);
    p.field_deg = keep(p.field_deg, BEAM_MAX_DEG);
    p.efficacy_lm_w = match (flux, power) {
        (Some(f), Some(w)) => {
            if w > 0 {
                let v: i32 = quotient_key(f, w);
                if is_finite_key(v) && v <= EFFICACY_MAX_LM_W {
                    Some(v)
                } else {
                    None
                }
            } else {
                given
            }
        },
        _ => given,
    };
}

/// The depth of a recess, where it is plausible.
pub fn sanitize_recessed_depth(depth: Option<u32>) -> (r: Option<u32>)
    ensures
        r == (match depth {
            Some(d) => if d <= DEPTH_MAX_MM {
                Some(d)
            } else {
                None
            },
            None => None,
        }),
{
    match depth {
        Some(d) => {
            if d <= DEPTH_MAX_MM {
                Some(d)
            } else {
                None
            }
        },
        None => None,
    }
}

} // verus!
