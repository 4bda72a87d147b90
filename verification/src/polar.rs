//! The polar drawing of a light distribution file.

use crate::photometry::{parsed_ldt, wide_number, ContentView, LdtSymmetry};
use crate::text::{decimal, has_infix, has_prefix, has_suffix, owned};
use crate::wide::is_wide_whole;
use vstd::prelude::*;

verus! {

/// The colours of a drawing that are not those of the light theme.
#[derive(Debug)]
pub struct PolarTheme {
    /// Background.
    pub background: String,
    /// Curve of the planes of 0 and 180 degrees.
    pub curve_c0_c180: String,
    /// What that curve encloses.
    pub curve_c0_c180_fill: String,
    /// Curve of the planes of 90 and 270 degrees.
    pub curve_c90_c270: String,
    /// What that curve encloses.
    pub curve_c90_c270_fill: String,
}

/// The model of [`PolarTheme`].
pub ghost struct ThemeView {
    /// Background.
    pub background: Seq<char>,
    /// Curve of the planes of 0 and 180 degrees.
    pub curve_c0_c180: Seq<char>,
    /// What that curve encloses.
    pub curve_c0_c180_fill: Seq<char>,
    /// Curve of the planes of 90 and 270 degrees.
    pub curve_c90_c270: Seq<char>,
    /// What that curve encloses.
    pub curve_c90_c270_fill: Seq<char>,
}

impl View for PolarTheme {
    type V = ThemeView;

    open spec fn view(&self) -> ThemeView {
        ThemeView {
            background: self.background@,
            curve_c0_c180: self.curve_c0_c180@,
            curve_c0_c180_fill: self.curve_c0_c180_fill@,
            curve_c90_c270: self.curve_c90_c270@,
            curve_c90_c270_fill: self.curve_c90_c270_fill@,
        }
    }
}

/// The colours of the drawings in a list of hits.
pub open spec fn hit_theme() -> ThemeView {
    ThemeView {
        background: "transparent"@,
        curve_c0_c180: "#1f6fd0"@,
        curve_c0_c180_fill: "rgba(31,111,208,0.18)"@,
        curve_c90_c270: "#7a3911"@,
        curve_c90_c270_fill: "rgba(122,57,17,0.10)"@,
    }
}

/// What a drawing shows of a light distribution.
pub ghost struct OutlineView {
    /// Whether the planes of 90 and 270 degrees have a curve of their own.
    pub second: bool,
    /// The intensities of the circles, as keys.
    pub rings: Seq<i64>,
}

/// What `eulumdat::diagram::PolarDiagram` shows of a text; none where the
/// parser of `eulumdat` refuses the text.
pub uninterp spec fn outline_of(text: Seq<char>) -> Option<OutlineView>;

/// How a square drawing of the given size begins: its view box, and a
/// background that fills it.
pub open spec fn drawing_head(size_px: nat, t: ThemeView) -> Seq<char> {
    let size = decimal(size_px);
    "<svg viewBox=\"0 0 "@ + size + " "@ + size
        + "\" xmlns=\"http://www.w3.org/2000/svg\"><rect x=\"0\" y=\"0\" width=\""@ + size
        + "\" height=\""@ + size + "\" fill=\""@ + t.background + "\"/>"@
}

/// The two colours of something.
pub open spec fn colours(fill: Seq<char>, stroke: Seq<char>) -> Seq<char> {
    " fill=\""@ + fill + "\" stroke=\""@ + stroke + "\" stroke-width=\""@
}

/// How the planes of 0 and 180 degrees stand in the legend of a drawing.
pub open spec fn first_legend(t: ThemeView) -> Seq<char> {
    colours(t.curve_c0_c180_fill, t.curve_c0_c180) + "2\" rx=\"2\"/>"@
}

/// How the curve of these planes ends.
pub open spec fn first_curve(t: ThemeView) -> Seq<char> {
    " Z\""@ + colours(t.curve_c0_c180_fill, t.curve_c0_c180) + "2.5\"/>"@
}

/// How the planes of 90 and 270 degrees stand in the legend of a drawing.
pub open spec fn second_legend(t: ThemeView) -> Seq<char> {
    colours(t.curve_c90_c270_fill, t.curve_c90_c270) + "2\" stroke-dasharray=\"4,2\" rx=\"2\"/>"@
}

/// How the curve of these planes ends.
pub open spec fn second_curve(t: ThemeView) -> Seq<char> {
    " Z\""@ + colours(t.curve_c90_c270_fill, t.curve_c90_c270)
        + "2.5\" stroke-dasharray=\"6,4\"/>"@
}

/// How a circle is labelled with its intensity.
pub open spec fn ring_label(n: nat) -> Seq<char> {
    "\">"@ + decimal(n) + "</text>"@
}

/// Whether a colour holds no character of the markup around it.
pub open spec fn is_plain(colour: Seq<char>) -> bool {
    !colour.contains('<') && !colour.contains('=')
}

/// Whether all colours are plain.
pub open spec fn plain_theme(t: ThemeView) -> bool {
    &&& is_plain(t.background)
    &&& is_plain(t.curve_c0_c180)
    &&& is_plain(t.curve_c0_c180_fill)
    &&& is_plain(t.curve_c90_c270)
    &&& is_plain(t.curve_c90_c270_fill)
}

/// Whether there is anything to draw a curve of.
pub open spec fn has_curve(c: ContentView) -> bool {
    c.planes > 0 && c.angles > 0
}

/// Whether an outline may be that of a light distribution: five circles,
/// and a second curve where the symmetry alone decides on it.
pub open spec fn fits(o: OutlineView, c: ContentView) -> bool {
    &&& o.rings.len() == 5
    &&& o.second ==> has_curve(c) && c.symmetry != LdtSymmetry::VerticalAxis
    &&& has_curve(c) && c.symmetry == LdtSymmetry::PlaneC90C270 ==> o.second
}

/// Whether a drawing shows the curves of a light distribution, each where
/// it has one, in the given colours.
pub open spec fn shows_curves(
    svg: Seq<char>,
    t: ThemeView,
    c: ContentView,
    o: OutlineView,
) -> bool {
    &&& has_infix(svg, first_legend(t))
    &&& has_curve(c) ==> has_infix(svg, first_curve(t))
    &&& o.second ==> has_infix(svg, second_legend(t)) && has_infix(svg, second_curve(t))
    &&& plain_theme(t) && !has_curve(c) ==> !has_infix(svg, "<path"@)
    &&& plain_theme(t) && !o.second ==> !has_infix(svg, " stroke-dasharray="@)
}

/// Whether a drawing labels every circle whose intensity is a whole
/// number.
pub open spec fn labels_rings(svg: Seq<char>, o: OutlineView) -> bool {
    forall|i: int, n: nat|
        0 <= i < o.rings.len() && #[trigger] is_wide_whole(o.rings[i], n) ==> has_infix(
            svg,
            ring_label(n),
        )
}

/// Whether a text may be the drawing of the given size and colours of a
/// light distribution.
pub open spec fn is_drawing(
    svg: Seq<char>,
    size_px: nat,
    t: ThemeView,
    c: ContentView,
    o: OutlineView,
) -> bool {
    &&& has_prefix(svg, drawing_head(size_px, t))
    &&& has_suffix(svg, "</svg>"@)
    &&& shows_curves(svg, t, c, o)
    &&& labels_rings(svg, o)
}

/// A drawing, and what it shows.
struct RawDrawing {
    svg: String,
    second: bool,
    rings: Vec<u64>,
}

spec fn raw_outline(r: Option<RawDrawing>) -> Option<OutlineView> {
    match r {
        Some(d) => Some(
            OutlineView {
                second: d.second,
                rings: d.rings@.map_values(|bits: u64| wide_number(bits)),
            },
        ),
        None => None,
    }
}

/// The colours of the drawings in a list of hits.
pub fn polar_theme() -> (r: PolarTheme)
    ensures
        r@ == hit_theme(),
{
    PolarTheme {
        background: owned("transparent"),
        curve_c0_c180: owned("#1f6fd0"),
        curve_c0_c180_fill: owned("rgba(31,111,208,0.18)"),
        curve_c90_c270: owned("#7a3911"),
        curve_c90_c270_fill: owned("rgba(122,57,17,0.10)"),
    }
}

/// Draws a light distribution file with
/// `eulumdat::diagram::PolarDiagram::to_svg`, in the light theme with
/// other colours. Claimed: there is a drawing wherever
/// `eulumdat::Eulumdat::parse` reads the text; the text alone decides
/// whether there is a second curve and which intensities the five circles
/// stand for; a second curve needs planes and angles and is never there
/// for a file of rotational symmetry, and always for one that is
/// symmetric about the planes of 90 and 270 degrees; the drawing begins
/// with a view box and a background of the given size and colour and ends
/// with its closing tag; each curve that is there, and its place in the legend, has its colours, and
/// nothing is dashed without a second curve, nor is there a path without
/// any; a circle of a whole intensity is labelled with it. Left unsaid is
/// the course of the curves: their points are computed with sines and
/// cosines whose last digits are up to the machine.
#[verifier::external_body]
fn draw_polar(ldt: &str, size_px: u32, t: &PolarTheme) -> (r: Option<RawDrawing>)
    ensures
        r is Some <==> parsed_ldt(ldt@) is Some,
        raw_outline(r) == outline_of(ldt@),
        r is Some ==> fits(raw_outline(r)->0, parsed_ldt(ldt@)->0),
        r matches Some(d) ==> is_drawing(
            d.svg@,
            size_px as nat,
            t@,
            parsed_ldt(ldt@)->0,
            outline_of(ldt@)->0,
        ),
{
    let parsed = eulumdat::Eulumdat::parse(ldt).ok()?;
    let polar = eulumdat::diagram::PolarDiagram::from_eulumdat(&parsed);
    let mut theme = eulumdat::diagram::SvgTheme::light();
    theme.background = t.background.clone();
    theme.curve_c0_c180 = t.curve_c0_c180.clone();
    theme.curve_c0_c180_fill = t.curve_c0_c180_fill.clone();
    theme.curve_c90_c270 = t.curve_c90_c270.clone();
    theme.curve_c90_c270_fill = t.curve_c90_c270_fill.clone();
    let svg = polar.to_svg(size_px.into(), size_px.into(), &theme);
    let rings = polar.scale.grid_values.iter().map(|v| v.to_bits()).collect();
    Some(RawDrawing { svg, second: polar.show_c90_c270(), rings })
}

/// The colours of the drawings in a list of hits are plain, so that a
/// curve is there only where the light distribution has it.
pub proof fn hit_theme_is_plain()
    ensures
        plain_theme(hit_theme()),
{
    reveal_strlit("transparent");
    reveal_strlit("#1f6fd0");
    reveal_strlit("rgba(31,111,208,0.18)");
    reveal_strlit("#7a3911");
    reveal_strlit("rgba(122,57,17,0.10)");
}

/// The polar drawing of a light distribution file, in the colours of a
/// list of hits; none where the text is not such a file.
pub fn render_polar_from_ldt(ldt: &str, size_px: u32) -> (r: Option<String>)
    ensures
        r is Some <==> parsed_ldt(ldt@) is Some,
        r is Some <==> outline_of(ldt@) is Some,
        r is Some ==> fits(outline_of(ldt@)->0, parsed_ldt(ldt@)->0),
        plain_theme(hit_theme()),
        r matches Some(svg) ==> is_drawing(
            svg@,
            size_px as nat,
            hit_theme(),
            parsed_ldt(ldt@)->0,
            outline_of(ldt@)->0,
        ),
{
    let theme: PolarTheme = polar_theme();
    proof {
        hit_theme_is_plain();
    }
    match draw_polar(ldt, size_px, &theme) {
        Some(d) => Some(d.svg),
        None => None,
    }
}

} // verus!
