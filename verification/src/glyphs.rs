//! Drawings of light distributions.
//!
//! Each light distribution of the closed list has a drawing of its polar
//! curve. A drawing is known by its name.

use crate::text::same_text;
use vstd::prelude::*;

verus! {

/// The light distributions with a drawing, and the names of the
/// drawings.
pub open spec fn glyph_names() -> Seq<(Seq<char>, Seq<char>)> {
    seq![
        ("Laterally symmetrical narrow"@, "laterally-symmetrical-narrow"@),
        ("Laterally symmetrical medium"@, "laterally-symmetrical-medium"@),
        ("Laterally symmetrical wide"@, "laterally-symmetrical-wide"@),
        ("Symmetrical in each quadrant"@, "symmetrical-in-each-quadrant"@),
        ("Symmetric about 0-180 plane"@, "symmetric-about-0-180-plane"@),
        ("Symmetric about 90-270 plane"@, "symmetric-about-90-270-plane"@),
        ("Asymmetrical"@, "asymmetrical"@),
        ("Asymmetrical flood"@, "asymmetrical-flood"@),
        ("Asymmetrical wide flood"@, "asymmetrical-wide-flood"@),
        ("Diffuse half spherical"@, "diffuse-half-spherical"@),
        ("Diffuse full spherical"@, "diffuse-full-spherical"@),
        ("Direct"@, "direct"@),
        ("Indirect"@, "indirect"@),
        ("Direct indirect"@, "direct-indirect"@),
        ("Other"@, "other"@),
    ]
}

/// The name of the drawing of a light distribution, from the `i`th on.
pub open spec fn glyph_from(v: Seq<char>, i: int) -> Option<Seq<char>>
    decreases glyph_names().len() - i,
{
    if i < 0 || i >= glyph_names().len() {
        None
    } else if glyph_names()[i].0 == v {
        Some(glyph_names()[i].1)
    } else {
        glyph_from(v, i + 1)
    }
}

/// The name of the drawing of a light distribution.
pub open spec fn glyph_of(v: Seq<char>) -> Option<Seq<char>> {
    glyph_from(v, 0)
}

/// A text in small letters, with a hyphen for every space.
pub open spec fn hyphened(s: Seq<char>) -> Seq<char> {
    Seq::new(
        s.len(),
        |i: int|
            if s[i] == ' ' {
                '-'
            } else {
                crate::text::ascii_lower_char(s[i])
            },
    )
}

/// A drawing is named after its light distribution, in small letters and
/// with hyphens.
#[verifier::spinoff_prover]
pub proof fn drawings_are_named_after_distributions(v: Seq<char>)
    ensures
        glyph_of(v) matches Some(name) ==> name == hyphened(v),
        glyph_of("Laterally symmetrical narrow"@) is Some,
        glyph_of("Laterally symmetrical medium"@) is Some,
        glyph_of("Laterally symmetrical wide"@) is Some,
        glyph_of("Symmetrical in each quadrant"@) is Some,
        glyph_of("Symmetric about 0-180 plane"@) is Some,
        glyph_of("Symmetric about 90-270 plane"@) is Some,
        glyph_of("Asymmetrical"@) is Some,
        glyph_of("Asymmetrical flood"@) is Some,
        glyph_of("Asymmetrical wide flood"@) is Some,
        glyph_of("Diffuse half spherical"@) is Some,
        glyph_of("Diffuse full spherical"@) is Some,
        glyph_of("Direct"@) is Some,
        glyph_of("Indirect"@) is Some,
        glyph_of("Direct indirect"@) is Some,
        glyph_of("Other"@) is Some,
{
    reveal_strlit("Laterally symmetrical narrow");
    reveal_strlit("laterally-symmetrical-narrow");
    assert(hyphened("Laterally symmetrical narrow"@) =~= "laterally-symmetrical-narrow"@);
    assert(glyph_names()[0] == ("Laterally symmetrical narrow"@, "laterally-symmetrical-narrow"@));
    glyph_found("Laterally symmetrical narrow"@, 0, 0);
    reveal_strlit("Laterally symmetrical medium");
    reveal_strlit("laterally-symmetrical-medium");
    assert(hyphened("Laterally symmetrical medium"@) =~= "laterally-symmetrical-medium"@);
    assert(glyph_names()[1] == ("Laterally symmetrical medium"@, "laterally-symmetrical-medium"@));
    glyph_found("Laterally symmetrical medium"@, 0, 1);
    reveal_strlit("Laterally symmetrical wide");
    reveal_strlit("laterally-symmetrical-wide");
    assert(hyphened("Laterally symmetrical wide"@) =~= "laterally-symmetrical-wide"@);
    assert(glyph_names()[2] == ("Laterally symmetrical wide"@, "laterally-symmetrical-wide"@));
    glyph_found("Laterally symmetrical wide"@, 0, 2);
    reveal_strlit("Symmetrical in each quadrant");
    reveal_strlit("symmetrical-in-each-quadrant");
    assert(hyphened("Symmetrical in each quadrant"@) =~= "symmetrical-in-each-quadrant"@);
    assert(glyph_names()[3] == ("Symmetrical in each quadrant"@, "symmetrical-in-each-quadrant"@));
    glyph_found("Symmetrical in each quadrant"@, 0, 3);
    reveal_strlit("Symmetric about 0-180 plane");
    reveal_strlit("symmetric-about-0-180-plane");
    assert(hyphened("Symmetric about 0-180 plane"@) =~= "symmetric-about-0-180-plane"@);
    assert(glyph_names()[4] == ("Symmetric about 0-180 plane"@, "symmetric-about-0-180-plane"@));
    glyph_found("Symmetric about 0-180 plane"@, 0, 4);
    reveal_strlit("Symmetric about 90-270 plane");
    reveal_strlit("symmetric-about-90-270-plane");
    assert(hyphened("Symmetric about 90-270 plane"@) =~= "symmetric-about-90-270-plane"@);
    assert(glyph_names()[5] == ("Symmetric about 90-270 plane"@, "symmetric-about-90-270-plane"@));
    glyph_found("Symmetric about 90-270 plane"@, 0, 5);
    reveal_strlit("Asymmetrical");
    reveal_strlit("asymmetrical");
    assert(hyphened("Asymmetrical"@) =~= "asymmetrical"@);
    assert(glyph_names()[6] == ("Asymmetrical"@, "asymmetrical"@));
    glyph_found("Asymmetrical"@, 0, 6);
    reveal_strlit("Asymmetrical flood");
    reveal_strlit("asymmetrical-flood");
    assert(hyphened("Asymmetrical flood"@) =~= "asymmetrical-flood"@);
    assert(glyph_names()[7] == ("Asymmetrical flood"@, "asymmetrical-flood"@));
    glyph_found("Asymmetrical flood"@, 0, 7);
    reveal_strlit("Asymmetrical wide flood");
    reveal_strlit("asymmetrical-wide-flood");
    assert(hyphened("Asymmetrical wide flood"@) =~= "asymmetrical-wide-flood"@);
    assert(glyph_names()[8] == ("Asymmetrical wide flood"@, "asymmetrical-wide-flood"@));
    glyph_found("Asymmetrical wide flood"@, 0, 8);
    reveal_strlit("Diffuse half spherical");
    reveal_strlit("diffuse-half-spherical");
    assert(hyphened("Diffuse half spherical"@) =~= "diffuse-half-spherical"@);
    assert(glyph_names()[9] == ("Diffuse half spherical"@, "diffuse-half-spherical"@));
    glyph_found("Diffuse half spherical"@, 0, 9);
    reveal_strlit("Diffuse full spherical");
    reveal_strlit("diffuse-full-spherical");
    assert(hyphened("Diffuse full spherical"@) =~= "diffuse-full-spherical"@);
    assert(glyph_names()[10] == ("Diffuse full spherical"@, "diffuse-full-spherical"@));
    glyph_found("Diffuse full spherical"@, 0, 10);
    reveal_strlit("Direct");
    reveal_strlit("direct");
    assert(hyphened("Direct"@) =~= "direct"@);
    assert(glyph_names()[11] == ("Direct"@, "direct"@));
    glyph_found("Direct"@, 0, 11);
    reveal_strlit("Indirect");
    reveal_strlit("indirect");
    assert(hyphened("Indirect"@) =~= "indirect"@);
    assert(glyph_names()[12] == ("Indirect"@, "indirect"@));
    glyph_found("Indirect"@, 0, 12);
    reveal_strlit("Direct indirect");
    reveal_strlit("direct-indirect");
    assert(hyphened("Direct indirect"@) =~= "direct-indirect"@);
    assert(glyph_names()[13] == ("Direct indirect"@, "direct-indirect"@));
    glyph_found("Direct indirect"@, 0, 13);
    reveal_strlit("Other");
    reveal_strlit("other");
    assert(hyphened("Other"@) =~= "other"@);
    assert(glyph_names()[14] == ("Other"@, "other"@));
    glyph_found("Other"@, 0, 14);
    glyph_is_named(v, 0);
}

proof fn glyph_found(v: Seq<char>, i: int, k: int)
    requires
        0 <= i <= k < glyph_names().len(),
        glyph_names()[k].0 == v,
    ensures
        glyph_from(v, i) is Some,
    decreases k - i,
{
    if i < k && glyph_names()[i].0 != v {
        glyph_found(v, i + 1, k);
    }
}

proof fn glyph_is_named(v: Seq<char>, i: int)
    requires
        0 <= i <= glyph_names().len(),
        forall|k: int|
            0 <= k < glyph_names().len() ==> (#[trigger] glyph_names()[k]).1 == hyphened(
                glyph_names()[k].0,
            ),
    ensures
        glyph_from(v, i) matches Some(name) ==> name == hyphened(v),
    decreases glyph_names().len() - i,
{
    if i < glyph_names().len() && glyph_names()[i].0 != v {
        glyph_is_named(v, i + 1);
    }
}

/// The `i`th light distribution and the name of its drawing.
pub fn glyph_entry(i: usize) -> (r: (&'static str, &'static str))
    requires
        i < 15,
    ensures
        (r.0@, r.1@) == glyph_names()[i as int],
{
    if i == 0 {
        ("Laterally symmetrical narrow", "laterally-symmetrical-narrow")
    } else if i == 1 {
        ("Laterally symmetrical medium", "laterally-symmetrical-medium")
    } else if i == 2 {
        ("Laterally symmetrical wide", "laterally-symmetrical-wide")
    } else if i == 3 {
        ("Symmetrical in each quadrant", "symmetrical-in-each-quadrant")
    } else if i == 4 {
        ("Symmetric about 0-180 plane", "symmetric-about-0-180-plane")
    } else if i == 5 {
        ("Symmetric about 90-270 plane", "symmetric-about-90-270-plane")
    } else if i == 6 {
        ("Asymmetrical", "asymmetrical")
    } else if i == 7 {
        ("Asymmetrical flood", "asymmetrical-flood")
    } else if i == 8 {
        ("Asymmetrical wide flood", "asymmetrical-wide-flood")
    } else if i == 9 {
        ("Diffuse half spherical", "diffuse-half-spherical")
    } else if i == 10 {
        ("Diffuse full spherical", "diffuse-full-spherical")
    } else if i == 11 {
        ("Direct", "direct")
    } else if i == 12 {
        ("Indirect", "indirect")
    } else if i == 13 {
        ("Direct indirect", "direct-indirect")
    } else {
        ("Other", "other")
    }
}

/// The name of the drawing of a light distribution; `None` for anything
/// else.
pub fn lvk_glyph(canonical: &str) -> (r: Option<&'static str>)
    ensures
        glyph_of(canonical@) == (match r {
            Some(name) => Some(name@),
            None => None,
        }),
{
    let mut i: usize = 0;
    while i < 15
        invariant
            i <= 15,
            glyph_names().len() == 15,
            glyph_from(canonical@, 0) == glyph_from(canonical@, i as int),
        decreases 15 - i,
    {
        let (value, name) = glyph_entry(i);
        if same_text(value, canonical) {
            return Some(name);
        }
        i += 1;
    }
    None
}

} // verus!
