//! What the free-form name of a variant tells of it.
//!
//! Names carry flux, power, colour, beam angle, protection codes, form
//! and purpose in words and figures. What is recognised becomes typed
//! values; what was matched also becomes keywords.

use crate::applications::{application_leaves_lower, application_probes, probe_views};
use crate::ids::IdList;
use crate::tables::{id_of, value_id, value_of, value_text, Axis};
use crate::text::{
    ascii_alphanumeric, chars_of, decimal, lowercase, occurs_at, owned, parse_digits,
    parsed_number, push_text, stands_at, texts, to_decimal, unicode_lower,
};
use vstd::prelude::*;

verus! {

// ---------------------------------------------------------------------
// Matching
// ---------------------------------------------------------------------

/// The groups of every match of a regular expression in a text, from
/// left to right, without overlap. The first group is the whole match.
pub uninterp spec fn regex_matches(pattern: Seq<char>, text: Seq<char>) -> Seq<Seq<Seq<char>>>;

/// The texts of the groups of several matches.
pub open spec fn group_texts(v: Seq<Vec<String>>) -> Seq<Seq<Seq<char>>> {
    v.map_values(|g: Vec<String>| texts(g@))
}

/// Calls `regex::Regex::captures_iter` and copies out the text of every
/// group of every match. A group without a part in the match counts as
/// the empty text, an expression that does not compile as one without
/// matches.
#[verifier::external_body]
fn find_all(pattern: &str, text: &str) -> (r: Vec<Vec<String>>)
    ensures
        group_texts(r@) == regex_matches(pattern@, text@),
{
    match regex::Regex::new(pattern) {
        Ok(re) => re.captures_iter(text).map(
            |c|
                c.iter().map(|g| g.map(|m| m.as_str().to_string()).unwrap_or_default()).collect(),
        ).collect(),
        Err(_) => Vec::new(),
    }
}

/// Lumens: a number before `lm`.
pub const FLUX_PATTERN: &'static str = "(?i)\\b(\\d{1,7})(?:\\.\\d+)?\\s*lm\\b";

/// Watts as a product: a count, `x`, a number before `W`.
pub const POWER_PRODUCT_PATTERN: &'static str =
    "(?i)\\b(\\d{1,3})\\s*x\\s*(\\d{1,4})(?:\\.\\d+)?\\s*W\\b";

/// Watts: a number before `W`.
pub const POWER_PATTERN: &'static str = "(?i)\\b(\\d{1,4})(?:\\.\\d+)?\\s*W\\b";

/// Two numbers with `x` between them, before a degree sign.
pub const BEAM_PAIR_PATTERN: &'static str = "\\b(\\d{1,3})x(\\d{1,3})\u{b0}";

/// A number before a degree sign.
pub const BEAM_PATTERN: &'static str = "\\b(\\d{1,3})\u{b0}";

/// An IP code.
pub const IP_PATTERN: &'static str = "\\bIP\\d{2}K?\\b";

/// An IK rating.
pub const IK_PATTERN: &'static str = "\\bIK\\d{2}\\+?\\b";

/// A three-digit colour code that stands alone.
pub const DIN_PATTERN: &'static str = "(?:^|\\s)([89]\\d{2})(?:\\s|$|\\)|,|;|\\.)";

/// A colour temperature before `K`.
pub const CCT_PATTERN: &'static str = "(?i)\\b(\\d{4,5})\\s*K\\b";

/// An emergency duration.
pub const EMERGENCY_PATTERN: &'static str = "(?i)\\bEM\\s*\\d+(?:/\\d+)?h\\b";

/// The matches of every expression in one name.
pub struct NameMatches {
    /// Lumens.
    pub flux: Vec<Vec<String>>,
    /// Watts as a product.
    pub power_product: Vec<Vec<String>>,
    /// Watts.
    pub power: Vec<Vec<String>>,
    /// Pairs before a degree sign.
    pub beam_pair: Vec<Vec<String>>,
    /// Numbers before a degree sign.
    pub beam: Vec<Vec<String>>,
    /// IP codes.
    pub ip: Vec<Vec<String>>,
    /// IK ratings.
    pub ik: Vec<Vec<String>>,
    /// Colour codes.
    pub din: Vec<Vec<String>>,
    /// Colour temperatures.
    pub cct: Vec<Vec<String>>,
    /// Emergency durations.
    pub emergency: Vec<Vec<String>>,
}

/// The view of [`NameMatches`].
pub struct MatchesView {
    /// Lumens.
    pub flux: Seq<Seq<Seq<char>>>,
    /// Watts as a product.
    pub power_product: Seq<Seq<Seq<char>>>,
    /// Watts.
    pub power: Seq<Seq<Seq<char>>>,
    /// Pairs before a degree sign.
    pub beam_pair: Seq<Seq<Seq<char>>>,
    /// Numbers before a degree sign.
    pub beam: Seq<Seq<Seq<char>>>,
    /// IP codes.
    pub ip: Seq<Seq<Seq<char>>>,
    /// IK ratings.
    pub ik: Seq<Seq<Seq<char>>>,
    /// Colour codes.
    pub din: Seq<Seq<Seq<char>>>,
    /// Colour temperatures.
    pub cct: Seq<Seq<Seq<char>>>,
    /// Emergency durations.
    pub emergency: Seq<Seq<Seq<char>>>,
}

impl View for NameMatches {
    type V = MatchesView;

    open spec fn view(&self) -> MatchesView {
        MatchesView {
            flux: group_texts(self.flux@),
            power_product: group_texts(self.power_product@),
            power: group_texts(self.power@),
            beam_pair: group_texts(self.beam_pair@),
            beam: group_texts(self.beam@),
            ip: group_texts(self.ip@),
            ik: group_texts(self.ik@),
            din: group_texts(self.din@),
            cct: group_texts(self.cct@),
            emergency: group_texts(self.emergency@),
        }
    }
}

/// The matches of every expression in a name.
pub open spec fn matches_in(name: Seq<char>) -> MatchesView {
    MatchesView {
        flux: regex_matches(FLUX_PATTERN@, name),
        power_product: regex_matches(POWER_PRODUCT_PATTERN@, name),
        power: regex_matches(POWER_PATTERN@, name),
        beam_pair: regex_matches(BEAM_PAIR_PATTERN@, name),
        beam: regex_matches(BEAM_PATTERN@, name),
        ip: regex_matches(IP_PATTERN@, name),
        ik: regex_matches(IK_PATTERN@, name),
        din: regex_matches(DIN_PATTERN@, name),
        cct: regex_matches(CCT_PATTERN@, name),
        emergency: regex_matches(EMERGENCY_PATTERN@, name),
    }
}

/// Finds the matches of every expression in a name.
pub fn match_name(name: &str) -> (r: NameMatches)
    ensures
        r@ == matches_in(name@),
{
    NameMatches {
        flux: find_all(FLUX_PATTERN, name),
        power_product: find_all(POWER_PRODUCT_PATTERN, name),
        power: find_all(POWER_PATTERN, name),
        beam_pair: find_all(BEAM_PAIR_PATTERN, name),
        beam: find_all(BEAM_PATTERN, name),
        ip: find_all(IP_PATTERN, name),
        ik: find_all(IK_PATTERN, name),
        din: find_all(DIN_PATTERN, name),
        cct: find_all(CCT_PATTERN, name),
        emergency: find_all(EMERGENCY_PATTERN, name),
    }
}

// ---------------------------------------------------------------------
// What matches mean
// ---------------------------------------------------------------------

/// What a name tells.
pub struct MinedFromName {
    /// Luminous flux (lm).
    pub flux_lm: Option<u32>,
    /// Electrical power (W).
    pub power_w: Option<u32>,
    /// Correlated colour temperature (K).
    pub cct_k: Option<u16>,
    /// Least colour rendering index.
    pub cri_ra_min: Option<u8>,
    /// Half-peak beam angle (degrees).
    pub beam_deg: Option<u32>,
    /// IP code id.
    pub ip_code: Option<u8>,
    /// IK rating id.
    pub ik_rating: Option<u8>,
    /// Product form id.
    pub product_form: Option<u8>,
    /// Whether an emergency duration was named.
    pub is_emergency: bool,
    /// Keywords, in the order they were found.
    pub keywords: Vec<String>,
    /// Application ids, in the order they were found.
    pub applications: IdList,
}

/// The view of [`MinedFromName`].
pub struct MinedView {
    /// Luminous flux (lm).
    pub flux_lm: Option<u32>,
    /// Electrical power (W).
    pub power_w: Option<u32>,
    /// Correlated colour temperature (K).
    pub cct_k: Option<u16>,
    /// Least colour rendering index.
    pub cri_ra_min: Option<u8>,
    /// Half-peak beam angle (degrees).
    pub beam_deg: Option<u32>,
    /// IP code id.
    pub ip_code: Option<u8>,
    /// IK rating id.
    pub ik_rating: Option<u8>,
    /// Product form id.
    pub product_form: Option<u8>,
    /// Whether an emergency duration was named.
    pub is_emergency: bool,
    /// Keywords.
    pub keywords: Seq<Seq<char>>,
    /// Application ids.
    pub applications: Seq<u8>,
}

impl View for MinedFromName {
    type V = MinedView;

    open spec fn view(&self) -> MinedView {
        MinedView {
            flux_lm: self.flux_lm,
            power_w: self.power_w,
            cct_k: self.cct_k,
            cri_ra_min: self.cri_ra_min,
            beam_deg: self.beam_deg,
            ip_code: self.ip_code,
            ik_rating: self.ik_rating,
            product_form: self.product_form,
            is_emergency: self.is_emergency,
            keywords: texts(self.keywords@),
            applications: self.applications@,
        }
    }
}

/// Nothing found.
pub open spec fn nothing_mined() -> MinedView {
    MinedView {
        flux_lm: None,
        power_w: None,
        cct_k: None,
        cri_ra_min: None,
        beam_deg: None,
        ip_code: None,
        ik_rating: None,
        product_form: None,
        is_emergency: false,
        keywords: Seq::empty(),
        applications: Seq::empty(),
    }
}

impl Default for MinedFromName {
    /// Nothing found.
    fn default() -> (r: MinedFromName)
        ensures
            r@ == nothing_mined(),
    {
        let r: MinedFromName = MinedFromName {
            flux_lm: None,
            power_w: None,
            cct_k: None,
            cri_ra_min: None,
            beam_deg: None,
            ip_code: None,
            ik_rating: None,
            product_form: None,
            is_emergency: false,
            keywords: Vec::new(),
            applications: IdList::new(),
        };
        proof {
            assert(texts(r.keywords@) =~= Seq::empty());
        }
        r
    }
}

/// The number in a group, where it is one of ASCII digits and at most
/// `max`.
pub open spec fn group_number(groups: Seq<Seq<char>>, k: int, max: u32) -> Option<u32> {
    if 0 <= k < groups.len() {
        match parsed_number(groups[k]) {
            Some(n) => if n <= max {
                Some(n as u32)
            } else {
                None
            },
            None => None,
        }
    } else {
        None
    }
}

/// The luminous flux: the last match tells.
pub open spec fn flux_of(m: MatchesView) -> Option<u32> {
    if m.flux.len() > 0 {
        group_number(m.flux.last(), 1, 9_999_999)
    } else {
        None
    }
}

/// The power: the product of the first pair where there is one, else the
/// first number.
pub open spec fn power_of(m: MatchesView) -> Option<u32> {
    if m.power_product.len() > 0 {
        match (group_number(m.power_product[0], 1, 999), group_number(m.power_product[0], 2, 9_999)) {
            (Some(a), Some(b)) => Some((a * b) as u32),
            _ => None,
        }
    } else if m.power.len() > 0 {
        group_number(m.power[0], 1, 9_999)
    } else {
        None
    }
}

/// The angle that a pair of numbers means: the smaller one, unless that
/// is too small for an angle and counts emitters.
pub open spec fn pair_angle(a: u32, b: u32) -> u32 {
    let small = if a < b {
        a
    } else {
        b
    };
    let large = if a < b {
        b
    } else {
        a
    };
    if small < 5 {
        large
    } else {
        small
    }
}

/// The beam angle: that of the first pair where there is one, else the
/// first number.
pub open spec fn beam_of(m: MatchesView) -> Option<u32> {
    if m.beam_pair.len() > 0 {
        match (group_number(m.beam_pair[0], 1, 999), group_number(m.beam_pair[0], 2, 999)) {
            (Some(a), Some(b)) => Some(pair_angle(a, b)),
            _ => None,
        }
    } else if m.beam.len() > 0 {
        group_number(m.beam[0], 1, 999)
    } else {
        None
    }
}

/// The whole text of the first match.
pub open spec fn first_match(s: Seq<Seq<Seq<char>>>) -> Option<Seq<char>> {
    if s.len() > 0 && s[0].len() > 0 {
        Some(s[0][0])
    } else {
        None
    }
}

/// The value id that the whole text of the first match names.
pub open spec fn matched_id(axis: Axis, s: Seq<Seq<Seq<char>>>) -> Option<u8> {
    match first_match(s) {
        Some(raw) => value_id(axis, raw),
        None => None,
    }
}

/// The colour temperature and rendering that a three-digit colour code
/// means: the first digit the tens of the rendering index, the other two
/// the hundreds of kelvin.
pub open spec fn din_meaning(code: u32) -> Option<(u16, u8)> {
    if code / 100 >= 8 && code % 100 >= 15 {
        Some((((code % 100) * 100) as u16, ((code / 100) * 10) as u8))
    } else {
        None
    }
}

/// What the first colour code means.
pub open spec fn din_of(m: MatchesView) -> Option<(u16, u8)> {
    if m.din.len() > 0 {
        match group_number(m.din[0], 1, 999) {
            Some(code) => din_meaning(code),
            None => None,
        }
    } else {
        None
    }
}

/// The colour temperature that is named outright, where no colour code
/// is.
pub open spec fn named_cct(m: MatchesView) -> Option<u16> {
    if m.din.len() == 0 && m.cct.len() > 0 {
        match group_number(m.cct[0], 1, 65_535) {
            Some(k) => if 1_500 <= k <= 10_000 {
                Some(k as u16)
            } else {
                None
            },
            None => None,
        }
    } else {
        None
    }
}

/// Whether a character can stand within a word.
pub open spec fn word_char(c: char) -> bool {
    ascii_alphanumeric(c) || c == '_'
}

/// Whether `needle` stands in `hay` at `i` as a word of its own.
pub open spec fn word_at(hay: Seq<char>, needle: Seq<char>, i: int) -> bool {
    &&& occurs_at(hay, needle, i)
    &&& i == 0 || !word_char(hay[i - 1])
    &&& i + needle.len() == hay.len() || !word_char(hay[i + needle.len()])
}

/// Whether `needle` stands in `hay` as a word of its own.
pub open spec fn word_in(hay: Seq<char>, needle: Seq<char>) -> bool {
    needle.len() > 0 && exists|i: int| word_at(hay, needle, i)
}

/// Words for forms and the product forms they mean, the first that
/// occurs deciding.
pub open spec fn form_words() -> Seq<(Seq<char>, Seq<char>)> {
    seq![
        ("rectangular"@, "Square"@),
        ("rectangle"@, "Square"@),
        ("square"@, "Square"@),
        ("round"@, "Round"@),
        ("rounded"@, "Rounded"@),
        ("linear"@, "Linear"@),
        ("cuboid"@, "Cuboid"@),
        ("cylinder"@, "Cylinder"@),
        ("cylindrical"@, "Cylinder"@),
        ("cone"@, "Cone"@),
        ("conical"@, "Cone"@),
        ("sphere"@, "Sphere"@),
        ("spherical"@, "Sphere"@),
        ("areal"@, "Areal"@),
    ]
}

/// The product form of the first form word, from the `i`th on, that
/// occurs in a lowered name: its id and its value.
pub open spec fn form_from(lowered: Seq<char>, i: int) -> Option<(u8, Seq<char>)>
    decreases form_words().len() - i,
{
    if i < 0 || i >= form_words().len() {
        None
    } else {
        let (word, form) = form_words()[i];
        if word_in(lowered, word) && value_id(Axis::ProductForm, form) is Some {
            Some((value_id(Axis::ProductForm, form)->0, form))
        } else {
            form_from(lowered, i + 1)
        }
    }
}

/// The product form that a name mentions.
pub open spec fn form_in(name: Seq<char>) -> Option<(u8, Seq<char>)> {
    form_from(unicode_lower(name), 0)
}

/// The applications that the first `n` probes find in a lowered name,
/// each once.
pub open spec fn applications_found(
    lowered: Seq<char>,
    probes: Seq<(Seq<char>, u8)>,
    n: int,
) -> Seq<u8>
    decreases n,
{
    if n <= 0 {
        Seq::empty()
    } else {
        let front = applications_found(lowered, probes, n - 1);
        if !front.contains(probes[n - 1].1) && word_in(lowered, probes[n - 1].0) {
            front.push(probes[n - 1].1)
        } else {
            front
        }
    }
}

/// The values of several applications.
pub open spec fn application_values(ids: Seq<u8>) -> Seq<Seq<char>>
    decreases ids.len(),
{
    if ids.len() == 0 {
        Seq::empty()
    } else {
        match value_text(Axis::Application, ids.last()) {
            Some(v) => application_values(ids.drop_last()).push(v),
            None => application_values(ids.drop_last()),
        }
    }
}

/// A list of one text, or of none.
pub open spec fn maybe(o: Option<Seq<char>>) -> Seq<Seq<char>> {
    match o {
        Some(s) => seq![s],
        None => Seq::empty(),
    }
}

/// A numeral with a unit.
pub open spec fn with_unit(n: Option<u32>, unit: Seq<char>) -> Seq<Seq<char>> {
    match n {
        Some(x) => seq![decimal(x as nat) + unit],
        None => Seq::empty(),
    }
}

/// The keywords of a colour code or a colour temperature.
pub open spec fn colour_keywords(m: MatchesView) -> Seq<Seq<char>> {
    match din_of(m) {
        Some((cct, cri)) => seq![decimal(cct as nat) + "K"@, "CRI"@ + decimal(cri as nat)],
        None => match named_cct(m) {
            Some(k) => seq![decimal(k as nat) + "K"@],
            None => Seq::empty(),
        },
    }
}

/// The keyword of a value that was matched.
pub open spec fn matched_keyword(axis: Axis, s: Seq<Seq<Seq<char>>>) -> Seq<Seq<char>> {
    if matched_id(axis, s) is Some {
        maybe(first_match(s))
    } else {
        Seq::empty()
    }
}

/// What a name with the given matches tells.
pub open spec fn mined(name: Seq<char>, m: MatchesView, probes: Seq<(Seq<char>, u8)>) -> MinedView {
    let ids = applications_found(unicode_lower(name), probes, probes.len() as int);
    MinedView {
        flux_lm: flux_of(m),
        power_w: power_of(m),
        cct_k: match din_of(m) {
            Some((cct, cri)) => Some(cct),
            None => named_cct(m),
        },
        cri_ra_min: match din_of(m) {
            Some((cct, cri)) => Some(cri),
            None => None,
        },
        beam_deg: beam_of(m),
        ip_code: matched_id(Axis::IpCode, m.ip),
        ik_rating: matched_id(Axis::IkRating, m.ik),
        product_form: match form_in(name) {
            Some((id, form)) => Some(id),
            None => None,
        },
        is_emergency: m.emergency.len() > 0,
        keywords: with_unit(flux_of(m), "lm"@) + with_unit(power_of(m), "W"@) + with_unit(
            beam_of(m),
            "\u{b0}"@,
        ) + matched_keyword(Axis::IpCode, m.ip) + matched_keyword(Axis::IkRating, m.ik)
            + colour_keywords(m) + (if m.emergency.len() > 0 {
            seq!["emergency"@]
        } else {
            Seq::empty()
        }) + (match form_in(name) {
            Some((id, form)) => seq![form],
            None => Seq::empty(),
        }) + application_values(ids),
        applications: ids,
    }
}

/// What a name tells.
pub open spec fn mined_from(name: Seq<char>) -> MinedView {
    mined(name, matches_in(name), application_probes())
}

/// Every figure that a name tells can be held exactly in twenty-four
/// bits.
pub proof fn mined_figures_are_small(m: MatchesView)
    ensures
        flux_of(m) matches Some(x) ==> x < 0x100_0000,
        power_of(m) matches Some(x) ==> x < 0x100_0000,
        beam_of(m) matches Some(x) ==> x < 0x100_0000,
{
    if m.power_product.len() > 0 {
        if let (Some(a), Some(b)) = (
            group_number(m.power_product[0], 1, 999),
            group_number(m.power_product[0], 2, 9_999),
        ) {
            assert(a * b <= 999 * 9_999) by (nonlinear_arith)
                requires
                    a <= 999,
                    b <= 9_999,
            ;
        }
    }
}

// ---------------------------------------------------------------------
// Laws
// ---------------------------------------------------------------------

/// What a name is searched for: numbers before `lm` and `W`, also with a
/// count before them, before a degree sign and before `K`, IP codes and IK
/// ratings of two digits, three digits that begin with an eight or a nine
/// and stand alone, and durations behind `EM`.
pub proof fn names_are_searched_for_these(name: Seq<char>)
    ensures
        matches_in(name).flux == regex_matches(
            "(?i)\\b(\\d{1,7})(?:\\.\\d+)?\\s*lm\\b"@,
            name,
        ),
        matches_in(name).power_product == regex_matches(
            "(?i)\\b(\\d{1,3})\\s*x\\s*(\\d{1,4})(?:\\.\\d+)?\\s*W\\b"@,
            name,
        ),
        matches_in(name).power == regex_matches(
            "(?i)\\b(\\d{1,4})(?:\\.\\d+)?\\s*W\\b"@,
            name,
        ),
        matches_in(name).beam_pair == regex_matches(
            "\\b(\\d{1,3})x(\\d{1,3})\u{b0}"@,
            name,
        ),
        matches_in(name).beam == regex_matches(
            "\\b(\\d{1,3})\u{b0}"@,
            name,
        ),
        matches_in(name).ip == regex_matches(
            "\\bIP\\d{2}K?\\b"@,
            name,
        ),
        matches_in(name).ik == regex_matches(
            "\\bIK\\d{2}\\+?\\b"@,
            name,
        ),
        matches_in(name).din == regex_matches(
            "(?:^|\\s)([89]\\d{2})(?:\\s|$|\\)|,|;|\\.)"@,
            name,
        ),
        matches_in(name).cct == regex_matches(
            "(?i)\\b(\\d{4,5})\\s*K\\b"@,
            name,
        ),
        matches_in(name).emergency == regex_matches(
            "(?i)\\bEM\\s*\\d+(?:/\\d+)?h\\b"@,
            name,
        ),
{
}

/// Whether the `k`th group of a match is the numeral of `n`.
pub open spec fn numeral_group(groups: Seq<Seq<char>>, k: int, n: nat) -> bool {
    0 <= k < groups.len() && groups[k] == decimal(n)
}

proof fn numeral_group_is_read(groups: Seq<Seq<char>>, k: int, n: nat, max: u32)
    requires
        numeral_group(groups, k, n),
    ensures
        n <= max ==> group_number(groups, k, max) == Some(n as u32),
        n > max ==> group_number(groups, k, max) is None,
{
    crate::text::decimal_round_trip(n);
}

#[verifier::spinoff_prover]
proof fn keyword_parts(name: Seq<char>, m: MatchesView, probes: Seq<(Seq<char>, u8)>, s: Seq<char>)
    ensures
        mined(name, m, probes).keywords.contains(s) <==> {
            ||| with_unit(flux_of(m), "lm"@).contains(s)
            ||| with_unit(power_of(m), "W"@).contains(s)
            ||| with_unit(beam_of(m), "\u{b0}"@).contains(s)
            ||| matched_keyword(Axis::IpCode, m.ip).contains(s)
            ||| matched_keyword(Axis::IkRating, m.ik).contains(s)
            ||| colour_keywords(m).contains(s)
            ||| m.emergency.len() > 0 && s == "emergency"@
            ||| form_in(name) is Some && s == (form_in(name)->0).1
            ||| application_values(mined(name, m, probes).applications).contains(s)
        },
{
    let ids = mined(name, m, probes).applications;
    let a = with_unit(flux_of(m), "lm"@);
    let b = with_unit(power_of(m), "W"@);
    let c = with_unit(beam_of(m), "\u{b0}"@);
    let d = matched_keyword(Axis::IpCode, m.ip);
    let e = matched_keyword(Axis::IkRating, m.ik);
    let f = colour_keywords(m);
    let g = if m.emergency.len() > 0 {
        seq!["emergency"@]
    } else {
        Seq::empty()
    };
    let h = match form_in(name) {
        Some((id, form)) => seq![form],
        None => Seq::empty(),
    };
    let z = application_values(ids);
    assert(mined(name, m, probes).keywords == a + b + c + d + e + f + g + h + z);
    in_either(a, b, s);
    in_either(a + b, c, s);
    in_either(a + b + c, d, s);
    in_either(a + b + c + d, e, s);
    in_either(a + b + c + d + e, f, s);
    in_either(a + b + c + d + e + f, g, s);
    in_either(a + b + c + d + e + f + g, h, s);
    in_either(a + b + c + d + e + f + g + h, z, s);
    if m.emergency.len() > 0 {
        assert(g[0] == "emergency"@);
    }
    if form_in(name) is Some {
        assert(h[0] == (form_in(name)->0).1);
    }
}

proof fn in_either(a: Seq<Seq<char>>, b: Seq<Seq<char>>, x: Seq<char>)
    ensures
        (a + b).contains(x) <==> a.contains(x) || b.contains(x),
{
    if a.contains(x) {
        let i = choose|i: int| 0 <= i < a.len() && a[i] == x;
        assert((a + b)[i] == x);
    }
    if b.contains(x) {
        let i = choose|i: int| 0 <= i < b.len() && b[i] == x;
        assert((a + b)[a.len() + i] == x);
    }
}

/// The flux of a name is the number of its last match, and can be
/// searched for with its unit; without a match there is none.
pub proof fn flux_is_the_last_match(
    name: Seq<char>,
    m: MatchesView,
    probes: Seq<(Seq<char>, u8)>,
    n: nat,
)
    ensures
        m.flux.len() == 0 ==> mined(name, m, probes).flux_lm is None,
        m.flux.len() > 0 && numeral_group(m.flux[m.flux.len() - 1], 1, n) && n <= 9_999_999 ==> {
            &&& mined(name, m, probes).flux_lm == Some(n as u32)
            &&& mined(name, m, probes).keywords.contains(decimal(n) + "lm"@)
        },
{
    if m.flux.len() > 0 && numeral_group(m.flux.last(), 1, n) && n <= 9_999_999 {
        numeral_group_is_read(m.flux.last(), 1, n, 9_999_999);
        let s = decimal(n) + "lm"@;
        assert(with_unit(flux_of(m), "lm"@)[0] == s);
        keyword_parts(name, m, probes, s);
    }
}

/// The power of a name is the product of the first pair, or else the
/// first number, and can be searched for with its unit.
pub proof fn power_is_count_by_watts(
    name: Seq<char>,
    m: MatchesView,
    probes: Seq<(Seq<char>, u8)>,
    a: nat,
    b: nat,
)
    requires
        a <= 999,
        b <= 9_999,
    ensures
        m.power_product.len() == 0 && m.power.len() == 0 ==> mined(name, m, probes).power_w is None,
        m.power_product.len() > 0 && numeral_group(m.power_product[0], 1, a) && numeral_group(
            m.power_product[0],
            2,
            b,
        ) ==> {
            &&& mined(name, m, probes).power_w is Some
            &&& mined(name, m, probes).power_w->0 == a * b
            &&& mined(name, m, probes).keywords.contains(decimal(a * b) + "W"@)
        },
        m.power_product.len() == 0 && m.power.len() > 0 && numeral_group(m.power[0], 1, b) ==> {
            &&& mined(name, m, probes).power_w == Some(b as u32)
            &&& mined(name, m, probes).keywords.contains(decimal(b) + "W"@)
        },
{
    assert(a * b <= 999 * 9_999) by (nonlinear_arith)
        requires
            a <= 999,
            b <= 9_999,
    ;
    if m.power_product.len() > 0 && numeral_group(m.power_product[0], 1, a) && numeral_group(
        m.power_product[0],
        2,
        b,
    ) {
        numeral_group_is_read(m.power_product[0], 1, a, 999);
        numeral_group_is_read(m.power_product[0], 2, b, 9_999);
        assert((a as u32) * (b as u32) == a * b);
        assert(with_unit(power_of(m), "W"@)[0] == decimal(a * b) + "W"@);
        keyword_parts(name, m, probes, decimal(a * b) + "W"@);
    }
    if m.power_product.len() == 0 && m.power.len() > 0 && numeral_group(m.power[0], 1, b) {
        numeral_group_is_read(m.power[0], 1, b, 9_999);
        assert(with_unit(power_of(m), "W"@)[0] == decimal(b) + "W"@);
        keyword_parts(name, m, probes, decimal(b) + "W"@);
    }
}

/// The beam of a name is the smaller angle of the first pair, or else the
/// first angle. A number below five in a pair counts emitters: the other
/// one is the angle then.
pub proof fn beam_is_the_smaller_angle(
    name: Seq<char>,
    m: MatchesView,
    probes: Seq<(Seq<char>, u8)>,
    a: nat,
    b: nat,
)
    requires
        a <= b <= 999,
    ensures
        m.beam_pair.len() == 0 && m.beam.len() == 0 ==> mined(name, m, probes).beam_deg is None,
        m.beam_pair.len() > 0 && ((numeral_group(m.beam_pair[0], 1, a) && numeral_group(
            m.beam_pair[0],
            2,
            b,
        )) || (numeral_group(m.beam_pair[0], 1, b) && numeral_group(m.beam_pair[0], 2, a))) ==> {
            &&& a >= 5 ==> mined(name, m, probes).beam_deg == Some(a as u32)
            &&& a < 5 ==> mined(name, m, probes).beam_deg == Some(b as u32)
        },
        m.beam_pair.len() == 0 && m.beam.len() > 0 && numeral_group(m.beam[0], 1, b) ==> mined(
            name,
            m,
            probes,
        ).beam_deg == Some(b as u32),
        mined(name, m, probes).beam_deg matches Some(x) ==> mined(name, m, probes).keywords.contains(
            decimal(x as nat) + "\u{b0}"@,
        ),
{
    if m.beam_pair.len() > 0 {
        if numeral_group(m.beam_pair[0], 1, a) && numeral_group(m.beam_pair[0], 2, b) {
            numeral_group_is_read(m.beam_pair[0], 1, a, 999);
            numeral_group_is_read(m.beam_pair[0], 2, b, 999);
        }
        if numeral_group(m.beam_pair[0], 1, b) && numeral_group(m.beam_pair[0], 2, a) {
            numeral_group_is_read(m.beam_pair[0], 1, b, 999);
            numeral_group_is_read(m.beam_pair[0], 2, a, 999);
        }
    } else if m.beam.len() > 0 && numeral_group(m.beam[0], 1, b) {
        numeral_group_is_read(m.beam[0], 1, b, 999);
    }
    if let Some(x) = beam_of(m) {
        let s = decimal(x as nat) + "\u{b0}"@;
        assert(with_unit(beam_of(m), "\u{b0}"@)[0] == s);
        keyword_parts(name, m, probes, s);
    }
}

/// A colour temperature between one thousand five hundred and ten
/// thousand kelvin that a name states, without a colour code beside it,
/// is that of the variant, and can be searched for.
pub proof fn stated_temperature_is_taken(
    name: Seq<char>,
    m: MatchesView,
    probes: Seq<(Seq<char>, u8)>,
    k: nat,
)
    requires
        m.din.len() == 0,
        m.cct.len() > 0,
        numeral_group(m.cct[0], 1, k),
    ensures
        1_500 <= k <= 10_000 ==> {
            &&& mined(name, m, probes).cct_k == Some(k as u16)
            &&& mined(name, m, probes).keywords.contains(decimal(k) + "K"@)
        },
        !(1_500 <= k <= 10_000) ==> mined(name, m, probes).cct_k is None,
        mined(name, m, probes).cri_ra_min is None,
{
    numeral_group_is_read(m.cct[0], 1, k, 65_535);
    if 1_500 <= k <= 10_000 {
        let s = decimal(k) + "K"@;
        assert(colour_keywords(m)[0] == s);
        keyword_parts(name, m, probes, s);
    }
}

/// A colour code of three digits gives the rendering index by its first
/// digit, an eight or a nine, and the colour temperature by the other
/// two, fifteen hundred kelvin or more. It goes before a temperature
/// that is stated, and both can be searched for.
pub proof fn colour_code_is_taken(
    name: Seq<char>,
    m: MatchesView,
    probes: Seq<(Seq<char>, u8)>,
    tens: nat,
    hundreds: nat,
)
    requires
        tens <= 9,
        hundreds <= 99,
        m.din.len() > 0,
        numeral_group(m.din[0], 1, tens * 100 + hundreds),
    ensures
        tens >= 8 && hundreds >= 15 ==> {
            &&& mined(name, m, probes).cct_k is Some
            &&& mined(name, m, probes).cct_k->0 == hundreds * 100
            &&& mined(name, m, probes).cri_ra_min is Some
            &&& mined(name, m, probes).cri_ra_min->0 == tens * 10
            &&& mined(name, m, probes).keywords.contains(decimal(hundreds * 100) + "K"@)
            &&& mined(name, m, probes).keywords.contains("CRI"@ + decimal(tens * 10))
        },
        tens < 8 || hundreds < 15 ==> mined(name, m, probes).cct_k is None && mined(
            name,
            m,
            probes,
        ).cri_ra_min is None,
{
    let code = tens * 100 + hundreds;
    numeral_group_is_read(m.din[0], 1, code, 999);
    assert(code / 100 == tens && code % 100 == hundreds);
    if tens >= 8 && hundreds >= 15 {
        let s = decimal(hundreds * 100) + "K"@;
        let t = "CRI"@ + decimal(tens * 10);
        assert(colour_keywords(m)[0] == s);
        assert(colour_keywords(m)[1] == t);
        keyword_parts(name, m, probes, s);
        keyword_parts(name, m, probes, t);
    }
}

/// Without a colour code and a stated temperature nothing is known of
/// the colour.
pub proof fn no_colour_without_a_match(
    name: Seq<char>,
    m: MatchesView,
    probes: Seq<(Seq<char>, u8)>,
)
    requires
        m.din.len() == 0,
        m.cct.len() == 0,
    ensures
        mined(name, m, probes).cct_k is None,
        mined(name, m, probes).cri_ra_min is None,
{
}

/// An IP code and an IK rating that a name holds are taken where they are
/// in their closed lists, and can then be searched for as written.
pub proof fn codes_are_taken_as_written(
    name: Seq<char>,
    m: MatchesView,
    probes: Seq<(Seq<char>, u8)>,
    s: Seq<char>,
)
    ensures
        m.ip.len() == 0 ==> mined(name, m, probes).ip_code is None,
        m.ik.len() == 0 ==> mined(name, m, probes).ik_rating is None,
        m.ip.len() > 0 && m.ip[0].len() > 0 && m.ip[0][0] == s ==> {
            &&& mined(name, m, probes).ip_code == value_id(Axis::IpCode, s)
            &&& value_id(Axis::IpCode, s) is Some ==> mined(name, m, probes).keywords.contains(s)
        },
        m.ik.len() > 0 && m.ik[0].len() > 0 && m.ik[0][0] == s ==> {
            &&& mined(name, m, probes).ik_rating == value_id(Axis::IkRating, s)
            &&& value_id(Axis::IkRating, s) is Some ==> mined(name, m, probes).keywords.contains(s)
        },
{
    keyword_parts(name, m, probes, s);
    if m.ip.len() > 0 && m.ip[0].len() > 0 && m.ip[0][0] == s && value_id(Axis::IpCode, s) is Some {
        assert(matched_keyword(Axis::IpCode, m.ip)[0] == s);
    }
    if m.ik.len() > 0 && m.ik[0].len() > 0 && m.ik[0][0] == s && value_id(Axis::IkRating, s) is Some {
        assert(matched_keyword(Axis::IkRating, m.ik)[0] == s);
    }
}

/// An emergency duration marks a name, and no other name is marked.
pub proof fn emergency_is_marked(name: Seq<char>, m: MatchesView, probes: Seq<(Seq<char>, u8)>)
    ensures
        mined(name, m, probes).is_emergency <==> m.emergency.len() > 0,
        m.emergency.len() > 0 ==> mined(name, m, probes).keywords.contains("emergency"@),
{
    keyword_parts(name, m, probes, "emergency"@);
}

/// An application is found exactly where one of its probes stands in the
/// name as a word of its own, in letters of any case; its value can then
/// be searched for.
pub proof fn applications_are_found_by_word(
    name: Seq<char>,
    m: MatchesView,
    probes: Seq<(Seq<char>, u8)>,
    id: u8,
)
    ensures
        mined(name, m, probes).applications.contains(id) <==> exists|i: int|
            0 <= i < probes.len() && (#[trigger] probes[i]).1 == id && word_in(
                unicode_lower(name),
                probes[i].0,
            ),
        mined(name, m, probes).applications.no_duplicates(),
        mined(name, m, probes).applications.contains(id) && value_text(Axis::Application, id) is Some
            ==> mined(name, m, probes).keywords.contains(value_text(Axis::Application, id)->0),
{
    let ids = mined(name, m, probes).applications;
    found_applications_are_exact(unicode_lower(name), probes, probes.len() as int, id);
    if ids.contains(id) && value_text(Axis::Application, id) is Some {
        let v = value_text(Axis::Application, id)->0;
        values_of_ids(ids, id);
        keyword_parts(name, m, probes, v);
    }
}

proof fn found_applications_are_exact(
    lowered: Seq<char>,
    probes: Seq<(Seq<char>, u8)>,
    n: int,
    id: u8,
)
    requires
        0 <= n <= probes.len(),
    ensures
        applications_found(lowered, probes, n).contains(id) <==> exists|i: int|
            0 <= i < n && (#[trigger] probes[i]).1 == id && word_in(lowered, probes[i].0),
        applications_found(lowered, probes, n).no_duplicates(),
    decreases n,
{
    if n > 0 {
        found_applications_are_exact(lowered, probes, n - 1, id);
        let front = applications_found(lowered, probes, n - 1);
        let all = applications_found(lowered, probes, n);
        if front.contains(id) {
            let k = choose|k: int| 0 <= k < front.len() && front[k] == id;
            assert(all[k] == id);
        }
        if all.contains(id) && !front.contains(id) {
            let k = choose|k: int| 0 <= k < all.len() && all[k] == id;
            if k < front.len() {
                assert(front[k] == id);
            }
            assert(probes[n - 1].1 == id);
        }
        if probes[n - 1].1 == id && word_in(lowered, probes[n - 1].0) && !front.contains(id) {
            assert(all[front.len() as int] == id);
        }
    }
}

proof fn values_of_ids(ids: Seq<u8>, id: u8)
    requires
        ids.contains(id),
        value_text(Axis::Application, id) is Some,
    ensures
        application_values(ids).contains(value_text(Axis::Application, id)->0),
    decreases ids.len(),
{
    let v = value_text(Axis::Application, id)->0;
    let all = application_values(ids);
    let front = application_values(ids.drop_last());
    let k = choose|k: int| 0 <= k < ids.len() && ids[k] == id;
    if k == ids.len() - 1 {
        assert(all[front.len() as int] == v);
    } else {
        assert(ids.drop_last()[k] == id);
        values_of_ids(ids.drop_last(), id);
        let j = choose|j: int| 0 <= j < front.len() && front[j] == v;
        assert(all[j] == v);
    }
}

/// A word is found where it stands with no letter, digit or underscore
/// before or behind it.
pub proof fn words_stand_alone(before: Seq<char>, word: Seq<char>, after: Seq<char>)
    requires
        word.len() > 0,
        before.len() == 0 || before[before.len() - 1] == ' ',
        after.len() == 0 || after[0] == ' ',
    ensures
        word_in(before + word + after, word),
{
    let s = before + word + after;
    let i = before.len() as int;
    assert(s.subrange(i, i + word.len()) =~= word);
    assert(word_at(s, word, i));
}

/// A word is not found where a letter, a digit or an underscore stands
/// directly before or behind it.
pub proof fn parts_of_words_are_not_words(before: Seq<char>, word: Seq<char>, after: Seq<char>, c: char)
    requires
        'a' <= c <= 'z' || 'A' <= c <= 'Z' || '0' <= c <= '9' || c == '_',
    ensures
        !word_at(before.push(c) + word + after, word, before.len() as int + 1),
        !word_at(before + word + (seq![c] + after), word, before.len() as int),
{
    let s = before.push(c) + word + after;
    assert(s[before.len() as int] == c);
    let t = before + word + (seq![c] + after);
    assert(t[before.len() + word.len() as int] == c);
}

/// The product form of a name is told by the first form word of the list
/// that stands in it, in letters of any case, and can be searched for.
pub proof fn form_is_told_by_its_word(
    name: Seq<char>,
    m: MatchesView,
    probes: Seq<(Seq<char>, u8)>,
    k: int,
)
    requires
        0 <= k < form_words().len(),
        word_in(unicode_lower(name), form_words()[k].0),
        value_id(Axis::ProductForm, form_words()[k].1) is Some,
        forall|j: int|
            0 <= j < k ==> !word_in(unicode_lower(name), (#[trigger] form_words()[j]).0),
    ensures
        mined(name, m, probes).product_form == value_id(Axis::ProductForm, form_words()[k].1),
        mined(name, m, probes).keywords.contains(form_words()[k].1),
{
    form_found_at(unicode_lower(name), 0, k);
    keyword_parts(name, m, probes, form_words()[k].1);
}

proof fn form_found_at(lowered: Seq<char>, i: int, k: int)
    requires
        0 <= i <= k < form_words().len(),
        word_in(lowered, form_words()[k].0),
        value_id(Axis::ProductForm, form_words()[k].1) is Some,
        forall|j: int| i <= j < k ==> !word_in(lowered, (#[trigger] form_words()[j]).0),
    ensures
        form_from(lowered, i) == Some(
            (value_id(Axis::ProductForm, form_words()[k].1)->0, form_words()[k].1),
        ),
    decreases k - i,
{
    if i < k {
        form_found_at(lowered, i + 1, k);
    }
}

/// Without any form word there is no product form.
pub proof fn no_form_without_a_word(
    name: Seq<char>,
    m: MatchesView,
    probes: Seq<(Seq<char>, u8)>,
)
    requires
        forall|j: int|
            0 <= j < form_words().len() ==> !word_in(
                unicode_lower(name),
                (#[trigger] form_words()[j]).0,
            ),
    ensures
        mined(name, m, probes).product_form is None,
{
    no_form_from(unicode_lower(name), 0);
}

proof fn no_form_from(lowered: Seq<char>, i: int)
    requires
        0 <= i <= form_words().len(),
        forall|j: int|
            i <= j < form_words().len() ==> !word_in(lowered, (#[trigger] form_words()[j]).0),
    ensures
        form_from(lowered, i) is None,
    decreases form_words().len() - i,
{
    if i < form_words().len() {
        assert(!word_in(lowered, form_words()[i].0));
        no_form_from(lowered, i + 1);
    }
}

/// Each form word means the form that it is a word for, and there are no
/// others.
pub proof fn form_words_mean_their_forms()
    ensures
        form_words().len() == 14,
        form_words().contains(("rectangular"@, "Square"@)),
        form_words().contains(("rectangle"@, "Square"@)),
        form_words().contains(("square"@, "Square"@)),
        form_words().contains(("round"@, "Round"@)),
        form_words().contains(("rounded"@, "Rounded"@)),
        form_words().contains(("linear"@, "Linear"@)),
        form_words().contains(("cuboid"@, "Cuboid"@)),
        form_words().contains(("cylinder"@, "Cylinder"@)),
        form_words().contains(("cylindrical"@, "Cylinder"@)),
        form_words().contains(("cone"@, "Cone"@)),
        form_words().contains(("conical"@, "Cone"@)),
        form_words().contains(("sphere"@, "Sphere"@)),
        form_words().contains(("spherical"@, "Sphere"@)),
        form_words().contains(("areal"@, "Areal"@)),
{
    let s = form_words();
    assert(s[0] == ("rectangular"@, "Square"@));
    assert(s[1] == ("rectangle"@, "Square"@));
    assert(s[2] == ("square"@, "Square"@));
    assert(s[3] == ("round"@, "Round"@));
    assert(s[4] == ("rounded"@, "Rounded"@));
    assert(s[5] == ("linear"@, "Linear"@));
    assert(s[6] == ("cuboid"@, "Cuboid"@));
    assert(s[7] == ("cylinder"@, "Cylinder"@));
    assert(s[8] == ("cylindrical"@, "Cylinder"@));
    assert(s[9] == ("cone"@, "Cone"@));
    assert(s[10] == ("conical"@, "Cone"@));
    assert(s[11] == ("sphere"@, "Sphere"@));
    assert(s[12] == ("spherical"@, "Sphere"@));
    assert(s[13] == ("areal"@, "Areal"@));
}

// ---------------------------------------------------------------------
// Code
// ---------------------------------------------------------------------

/// The number in a group of a match.
fn number_in(matches: &Vec<Vec<String>>, i: usize, k: usize, max: u32) -> (r: Option<u32>)
    requires
        i < matches@.len(),
    ensures
        r == group_number(group_texts(matches@)[i as int], k as int, max),
{
    let groups: &Vec<String> = &matches[i];
    proof {
        assert(group_texts(matches@)[i as int] == texts(groups@));
    }
    if k < groups.len() {
        proof {
            assert(texts(groups@)[k as int] == groups@[k as int]@);
        }
        parse_digits(groups[k].as_str(), max)
    } else {
        None
    }
}

/// Adds a keyword.
fn add_keyword(keywords: &mut Vec<String>, s: String)
    ensures
        texts(final(keywords)@) == texts(old(keywords)@) + seq![s@],
{
    let ghost before = texts(keywords@);
    let ghost t = s@;
    keywords.push(s);
    proof {
        assert(texts(keywords@) =~= before + seq![t]);
    }
}

/// A numeral with a unit.
fn numeral(n: u32, unit: &str) -> (r: String)
    ensures
        r@ == decimal(n as nat) + unit@,
{
    let mut s: String = to_decimal(n as u64);
    push_text(&mut s, unit);
    s
}

/// Adds a numeral with a unit, where there is one.
fn add_numeral(keywords: &mut Vec<String>, n: Option<u32>, unit: &str)
    ensures
        texts(final(keywords)@) == texts(old(keywords)@) + with_unit(n, unit@),
{
    match n {
        Some(x) => add_keyword(keywords, numeral(x, unit)),
        None => {
            proof {
                assert(texts(keywords@) + Seq::<Seq<char>>::empty() =~= texts(keywords@));
            }
        },
    }
}

/// The id that the first match names, with its keyword added.
fn take_matched(keywords: &mut Vec<String>, axis: Axis, matches: &Vec<Vec<String>>) -> (r: Option<
    u8,
>)
    ensures
        r == matched_id(axis, group_texts(matches@)),
        texts(final(keywords)@) == texts(old(keywords)@) + matched_keyword(
            axis,
            group_texts(matches@),
        ),
{
    proof {
        assert(texts(keywords@) + Seq::<Seq<char>>::empty() =~= texts(keywords@));
    }
    if matches.len() == 0 {
        return None;
    }
    proof {
        assert(group_texts(matches@)[0] == texts(matches@[0]@));
    }
    if matches[0].len() == 0 {
        return None;
    }
    let raw: &String = &matches[0][0];
    proof {
        assert(texts(matches@[0]@)[0] == raw@);
    }
    let id: Option<u8> = id_of(axis, raw.as_str());
    if id.is_some() {
        add_keyword(keywords, raw.clone());
    }
    id
}

/// Whether a character can stand within a word.
fn is_word_char(c: char) -> (r: bool)
    ensures
        r == word_char(c),
{
    ('a' <= c && c <= 'z') || ('A' <= c && c <= 'Z') || ('0' <= c && c <= '9') || c == '_'
}

/// Whether `needle` stands in `hay` as a word of its own.
pub fn substr_word_match(hay: &str, needle: &str) -> (r: bool)
    ensures
        r == word_in(hay@, needle@),
{
    let h: Vec<char> = chars_of(hay);
    let n: Vec<char> = chars_of(needle);
    if n.len() == 0 || n.len() > h.len() {
        return false;
    }
    let last: usize = h.len() - n.len();
    let mut i: usize = 0;
    while i <= last
        invariant
            h@ == hay@,
            n@ == needle@,
            0 < n@.len() <= h@.len(),
            last == h@.len() - n@.len(),
            i <= last + 1,
            last < usize::MAX,
            forall|j: int| 0 <= j < i ==> !word_at(hay@, needle@, j),
        decreases last + 1 - i,
    {
        if stands_at(&h, &n, i) {
            let before: bool = i == 0 || !is_word_char(h[i - 1]);
            let after: bool = i == last || !is_word_char(h[i + n.len()]);
            if before && after {
                proof {
                    assert(word_at(hay@, needle@, i as int));
                }
                return true;
            }
        }
        i += 1;
    }
    false
}

/// The `i`th form word and its product form.
fn form_word(i: usize) -> (r: (&'static str, &'static str))
    requires
        i < 14,
    ensures
        (r.0@, r.1@) == form_words()[i as int],
{
    if i == 0 {
        ("rectangular", "Square")
    } else if i == 1 {
        ("rectangle", "Square")
    } else if i == 2 {
        ("square", "Square")
    } else if i == 3 {
        ("round", "Round")
    } else if i == 4 {
        ("rounded", "Rounded")
    } else if i == 5 {
        ("linear", "Linear")
    } else if i == 6 {
        ("cuboid", "Cuboid")
    } else if i == 7 {
        ("cylinder", "Cylinder")
    } else if i == 8 {
        ("cylindrical", "Cylinder")
    } else if i == 9 {
        ("cone", "Cone")
    } else if i == 10 {
        ("conical", "Cone")
    } else if i == 11 {
        ("sphere", "Sphere")
    } else if i == 12 {
        ("spherical", "Sphere")
    } else {
        ("areal", "Areal")
    }
}

/// The product form that a name mentions: its id and its value.
pub fn scan_product_form(name: &str) -> (r: Option<(u8, &'static str)>)
    ensures
        form_in(name@) == (match r {
            Some((id, form)) => Some((id, form@)),
            None => None,
        }),
{
    let lowered: String = lowercase(name);
    let mut i: usize = 0;
    while i < 14
        invariant
            i <= 14,
            form_words().len() == 14,
            lowered@ == unicode_lower(name@),
            form_from(lowered@, 0) == form_from(lowered@, i as int),
        decreases 14 - i,
    {
        let (word, form) = form_word(i);
        if substr_word_match(lowered.as_str(), word) {
            match id_of(Axis::ProductForm, form) {
                Some(id) => {
                    return Some((id, form));
                },
                None => {},
            }
        }
        i += 1;
    }
    None
}

/// Adds the applications that a name mentions, and their values as
/// keywords.
fn scan_applications(
    name: &str,
    probes: &Vec<(String, u8)>,
    keywords: &mut Vec<String>,
) -> (r: IdList)
    ensures
        r@ == applications_found(unicode_lower(name@), probe_views(probes@), probes@.len() as int),
        texts(final(keywords)@) == texts(old(keywords)@) + application_values(r@),
{
    let lowered: String = lowercase(name);
    let ghost views = probe_views(probes@);
    let ghost start = texts(keywords@);
    let mut seen: IdList = IdList::new();
    let mut i: usize = 0;
    proof {
        assert(start + application_values(seen@) =~= start);
    }
    while i < probes.len()
        invariant
            i <= probes@.len(),
            views == probe_views(probes@),
            lowered@ == unicode_lower(name@),
            seen@ == applications_found(lowered@, views, i as int),
            texts(keywords@) == start + application_values(seen@),
        decreases probes@.len() - i,
    {
        let id: u8 = probes[i].1;
        proof {
            assert(views[i as int] == (probes@[i as int].0@, id));
        }
        if !seen.contains(id) && substr_word_match(lowered.as_str(), probes[i].0.as_str()) {
            let ghost before = seen@;
            seen.push(id);
            proof {
                assert(seen@.drop_last() =~= before);
            }
            match value_of(Axis::Application, id) {
                Some(v) => {
                    add_keyword(keywords, owned(v));
                    proof {
                        assert(start + application_values(before) + seq![v@] =~= start
                            + application_values(before).push(v@));
                    }
                },
                None => {},
            }
        }
        i += 1;
    }
    seen
}

/// What the colour codes and colour temperatures of a name mean, with
/// their keywords added.
fn take_colour(keywords: &mut Vec<String>, m: &NameMatches) -> (r: (Option<u16>, Option<u8>))
    ensures
        r.0 == (match din_of(m@) {
            Some((cct, cri)) => Some(cct),
            None => named_cct(m@),
        }),
        r.1 == (match din_of(m@) {
            Some((cct, cri)) => Some(cri),
            None => None,
        }),
        texts(final(keywords)@) == texts(old(keywords)@) + colour_keywords(m@),
{
    let ghost start = texts(keywords@);
    proof {
        assert(start + Seq::<Seq<char>>::empty() =~= start);
    }
    if m.din.len() > 0 {
        match number_in(&m.din, 0, 1, 999) {
            Some(code) => {
                let tens: u32 = code / 100;
                let hundreds: u32 = code % 100;
                if tens >= 8 && hundreds >= 15 {
                    let cct: u32 = hundreds * 100;
                    let cri: u32 = tens * 10;
                    add_keyword(keywords, numeral(cct, "K"));
                    let mut s: String = owned("CRI");
                    push_text(&mut s, to_decimal(cri as u64).as_str());
                    add_keyword(keywords, s);
                    proof {
                        assert(start + seq![decimal(cct as nat) + "K"@] + seq![
                            "CRI"@ + decimal(cri as nat),
                        ] =~= start + colour_keywords(m@));
                    }
                    (Some(cct as u16), Some(cri as u8))
                } else {
                    (None, None)
                }
            },
            None => (None, None),
        }
    } else if m.cct.len() > 0 {
        match number_in(&m.cct, 0, 1, 65_535) {
            Some(k) => {
                if 1_500 <= k && k <= 10_000 {
                    add_keyword(keywords, numeral(k, "K"));
                    (Some(k as u16), None)
                } else {
                    (None, None)
                }
            },
            None => (None, None),
        }
    } else {
        (None, None)
    }
}

/// What a name with the given matches tells.
pub fn mine_matches(name: &str, m: &NameMatches, probes: &Vec<(String, u8)>) -> (r: MinedFromName)
    ensures
        r@ == mined(name@, m@, probe_views(probes@)),
{
    let mut keywords: Vec<String> = Vec::new();
    proof {
        assert(texts(keywords@) =~= Seq::empty());
        mined_figures_are_small(m@);
    }
    let flux_lm: Option<u32> = if m.flux.len() > 0 {
        number_in(&m.flux, m.flux.len() - 1, 1, 9_999_999)
    } else {
        None
    };
    add_numeral(&mut keywords, flux_lm, "lm");
    let power_w: Option<u32> = if m.power_product.len() > 0 {
        match (number_in(&m.power_product, 0, 1, 999), number_in(&m.power_product, 0, 2, 9_999)) {
            (Some(a), Some(b)) => {
                assert(a * b <= 999 * 9_999) by (nonlinear_arith)
                    requires
                        a <= 999,
                        b <= 9_999,
                ;
                Some(a * b)
            },
            _ => None,
        }
    } else if m.power.len() > 0 {
        number_in(&m.power, 0, 1, 9_999)
    } else {
        None
    };
    add_numeral(&mut keywords, power_w, "W");
    let beam_deg: Option<u32> = if m.beam_pair.len() > 0 {
        match (number_in(&m.beam_pair, 0, 1, 999), number_in(&m.beam_pair, 0, 2, 999)) {
            (Some(a), Some(b)) => {
                let (small, large) = if a < b {
                    (a, b)
                } else {
                    (b, a)
                };
                Some(
                    if small < 5 {
                        large
                    } else {
                        small
                    },
                )
            },
            _ => None,
        }
    } else if m.beam.len() > 0 {
        number_in(&m.beam, 0, 1, 999)
    } else {
        None
    };
    add_numeral(&mut keywords, beam_deg, "\u{b0}");
    let ip_code: Option<u8> = take_matched(&mut keywords, Axis::IpCode, &m.ip);
    let ik_rating: Option<u8> = take_matched(&mut keywords, Axis::IkRating, &m.ik);
    let (cct_k, cri_ra_min) = take_colour(&mut keywords, m);
    let is_emergency: bool = m.emergency.len() > 0;
    let ghost before = texts(keywords@);
    if is_emergency {
        add_keyword(&mut keywords, owned("emergency"));
    } else {
        proof {
            assert(before + Seq::<Seq<char>>::empty() =~= before);
        }
    }
    let form: Option<(u8, &'static str)> = scan_product_form(name);
    let ghost with_em = texts(keywords@);
    let product_form: Option<u8> = match form {
        Some((id, value)) => {
            add_keyword(&mut keywords, owned(value));
            Some(id)
        },
        None => {
            proof {
                assert(with_em + Seq::<Seq<char>>::empty() =~= with_em);
            }
            None
        },
    };
    let applications: IdList = scan_applications(name, probes, &mut keywords);
    let r: MinedFromName = MinedFromName {
        flux_lm,
        power_w,
        cct_k,
        cri_ra_min,
        beam_deg,
        ip_code,
        ik_rating,
        product_form,
        is_emergency,
        keywords,
        applications,
    };
    proof {
        assert(texts(r.keywords@) =~= mined(name@, m@, probe_views(probes@)).keywords);
    }
    r
}

/// What a name tells.
pub fn mine_variant_name(name: &str) -> (r: MinedFromName)
    ensures
        r@ == mined_from(name@),
{
    let m: NameMatches = match_name(name);
    let probes: Vec<(String, u8)> = application_leaves_lower();
    mine_matches(name, &m, &probes)
}

} // verus!
