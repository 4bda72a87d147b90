//! Result rows: what they show, and the pane with curve and picture that
//! opens below them.

use crate::api::{ProductImage, VariantPayloadSlim};
use crate::applications::{leaf_level, leaf_of};
use crate::doc::{
    variant_views, DocView, LuminaireDoc, PhotometryStats, VariantDoc, VariantView,
};
use crate::facets::{mounting_name, place_name, place_text, type_text};
use crate::figures::{
    dotted, inline_parts, render_phot_stats, slim_stats, stat_views, stats_shown,
    variant_stats_inline, Stat,
};
use crate::hex::{hex_of, hex_text};
use crate::search::{sort_texts, sorted_texts};
use crate::text::{copy_opt_text, decimal, opt_text, owned, push_text, texts, to_decimal};
use vstd::prelude::*;

verus! {

// ---------------------------------------------------------------------
// Rows of documents
// ---------------------------------------------------------------------

/// One line of the table of variants.
#[derive(Debug)]
pub struct TableRow {
    /// Number of the variant, from one on.
    pub number: u32,
    /// Name.
    pub name: String,
    /// Line of figures.
    pub stats: Option<String>,
    /// Mounting place and type.
    pub mounting: String,
    /// Depth of the recess.
    pub depth: String,
}

/// The view of a [`TableRow`].
pub struct TableRowView {
    /// Number of the variant.
    pub number: u32,
    /// Name.
    pub name: Seq<char>,
    /// Line of figures.
    pub stats: Option<Seq<char>>,
    /// Mounting place and type.
    pub mounting: Seq<char>,
    /// Depth of the recess.
    pub depth: Seq<char>,
}

impl View for TableRow {
    type V = TableRowView;

    open spec fn view(&self) -> TableRowView {
        TableRowView {
            number: self.number,
            name: self.name@,
            stats: opt_text(self.stats),
            mounting: self.mounting@,
            depth: self.depth@,
        }
    }
}

/// The views of several lines.
pub open spec fn table_views(v: Seq<TableRow>) -> Seq<TableRowView> {
    v.map_values(|r: TableRow| r@)
}

/// The line of a variant.
pub open spec fn table_row(v: VariantView, i: int) -> TableRowView {
    TableRowView {
        number: (i % 65536 + 1) as u32,
        name: v.name,
        stats: match v.photometry {
            Some(p) => Some(dotted(inline_parts(p))),
            None => None,
        },
        mounting: place_text(v.mounting_place) + " / "@ + type_text(v.mounting_type),
        depth: match v.recessed_depth_mm {
            Some(d) => decimal(d as nat) + " mm"@,
            None => Seq::empty(),
        },
    }
}

/// The first figures among the variants from the `i`th on.
pub open spec fn first_stats(vs: Seq<VariantView>, i: int) -> Option<PhotometryStats>
    decreases vs.len() - i,
{
    if i < 0 || i >= vs.len() {
        None
    } else if vs[i].photometry is Some {
        vs[i].photometry
    } else {
        first_stats(vs, i + 1)
    }
}

/// What a row shows of a document.
#[derive(Debug)]
pub struct HitRow {
    /// Hexadecimal id.
    pub id_hex: String,
    /// Manufacturer.
    pub manufacturer: String,
    /// Product name.
    pub product: String,
    /// How many variants there are, where there are several.
    pub variants_label: Option<String>,
    /// Whether there are figures.
    pub has_photometry: bool,
    /// Product code, else trade number.
    pub sku: Option<String>,
    /// Figures of the first variant that has any.
    pub stats: Vec<Stat>,
    /// Keywords, in order.
    pub keywords: Vec<String>,
    /// The table of variants.
    pub table: Vec<TableRow>,
}

/// The view of a [`HitRow`].
pub struct HitRowView {
    /// Hexadecimal id.
    pub id_hex: Seq<char>,
    /// Manufacturer.
    pub manufacturer: Seq<char>,
    /// Product name.
    pub product: Seq<char>,
    /// How many variants there are.
    pub variants_label: Option<Seq<char>>,
    /// Whether there are figures.
    pub has_photometry: bool,
    /// Product code, else trade number.
    pub sku: Option<Seq<char>>,
    /// Figures.
    pub stats: Seq<(Seq<char>, Seq<char>)>,
    /// Keywords.
    pub keywords: Seq<Seq<char>>,
    /// The table of variants.
    pub table: Seq<TableRowView>,
}

impl View for HitRow {
    type V = HitRowView;

    open spec fn view(&self) -> HitRowView {
        HitRowView {
            id_hex: self.id_hex@,
            manufacturer: self.manufacturer@,
            product: self.product@,
            variants_label: opt_text(self.variants_label),
            has_photometry: self.has_photometry,
            sku: opt_text(self.sku),
            stats: stat_views(self.stats@),
            keywords: texts(self.keywords@),
            table: table_views(self.table@),
        }
    }
}

/// What a row shows of a document.
pub open spec fn row_of(d: DocView) -> HitRowView {
    HitRowView {
        id_hex: hex_text(d.id),
        manufacturer: d.manufacturer,
        product: d.product,
        variants_label: if d.variants.len() > 1 {
            Some(decimal(d.variants.len()) + " variants"@)
        } else {
            None
        },
        has_photometry: first_stats(d.variants, 0) is Some,
        sku: if d.product_code is Some {
            d.product_code
        } else {
            d.gtin
        },
        stats: match first_stats(d.variants, 0) {
            Some(p) => stats_shown(slim_stats(p)),
            None => Seq::empty(),
        },
        keywords: sorted_texts(d.keywords),
        table: Seq::new(d.variants.len(), |i: int| table_row(d.variants[i], i)),
    }
}

/// The line of a variant.
fn build_table_row(v: &VariantDoc, i: usize) -> (r: TableRow)
    ensures
        r@ == table_row(v@, i as int),
{
    let mut mounting: String = owned(place_name(v.mounting_place));
    push_text(&mut mounting, " / ");
    push_text(&mut mounting, mounting_name(v.mounting_type));
    let depth: String = match v.recessed_depth_mm {
        Some(d) => {
            let mut s: String = to_decimal(d as u64);
            push_text(&mut s, " mm");
            s
        },
        None => {
            let s: String = String::new();
            proof {
                assert(s@ =~= Seq::empty());
            }
            s
        },
    };
    let stats: Option<String> = match &v.photometry {
        Some(p) => Some(variant_stats_inline(p)),
        None => None,
    };
    TableRow {
        number: (i % 65536) as u32 + 1,
        name: v.name.clone(),
        stats,
        mounting,
        depth,
    }
}

/// The first figures of a document.
fn find_stats(d: &LuminaireDoc) -> (r: Option<PhotometryStats>)
    ensures
        r == first_stats(d@.variants, 0),
{
    let ghost vs = d@.variants;
    let mut i: usize = 0;
    while i < d.variants.len()
        invariant
            i <= d.variants@.len(),
            vs == variant_views(d.variants@),
            first_stats(vs, 0) == first_stats(vs, i as int),
        decreases d.variants@.len() - i,
    {
        proof {
            assert(vs[i as int] == d.variants@[i as int]@);
        }
        if d.variants[i].photometry.is_some() {
            return d.variants[i].photometry;
        }
        i += 1;
    }
    None
}

/// What a row shows of a document.
pub fn hit_row(d: &LuminaireDoc) -> (r: HitRow)
    ensures
        r@ == row_of(d@),
{
    let ghost vs = d@.variants;
    let mut table: Vec<TableRow> = Vec::new();
    let mut i: usize = 0;
    while i < d.variants.len()
        invariant
            i <= d.variants@.len(),
            vs == variant_views(d.variants@),
            table@.len() == i,
            forall|k: int| 0 <= k < i ==> (#[trigger] table@[k])@ == table_row(vs[k], k),
        decreases d.variants@.len() - i,
    {
        proof {
            assert(vs[i as int] == d.variants@[i as int]@);
        }
        table.push(build_table_row(&d.variants[i], i));
        i += 1;
    }
    let found: Option<PhotometryStats> = find_stats(d);
    let has_photometry: bool = found.is_some();
    let stats: Vec<Stat> = match found {
        Some(p) => render_phot_stats(&p),
        None => Vec::new(),
    };
    let variants_label: Option<String> = if d.variants.len() > 1 {
        let mut s: String = to_decimal(d.variants.len() as u64);
        push_text(&mut s, " variants");
        Some(s)
    } else {
        None
    };
    let sku: Option<String> = match &d.product_code {
        Some(s) => Some(s.clone()),
        None => copy_opt_text(&d.gtin),
    };
    let row: HitRow = HitRow {
        id_hex: hex_of(&d.id),
        manufacturer: d.manufacturer.clone(),
        product: d.product.clone(),
        variants_label,
        has_photometry,
        sku,
        stats,
        keywords: sort_texts(&d.keywords),
        table,
    };
    proof {
        assert(row@.table =~= row_of(d@).table);
        assert(row@.stats =~= row_of(d@).stats);
    }
    row
}

// ---------------------------------------------------------------------
// Rows of variants
// ---------------------------------------------------------------------

/// What a badge of a row is about.
#[derive(Clone, Copy, PartialEq, Eq, Debug, Structural)]
pub enum BadgeKind {
    /// IP code.
    Ip,
    /// Lamp type.
    Lamp,
    /// Control gear interface.
    ControlGear,
    /// Mounting.
    Mounting,
    /// Depth of the recess.
    Depth,
    /// 3D model.
    Model,
    /// Emergency lighting.
    Emergency,
    /// Application.
    Application,
}

/// A badge of a row.
#[derive(Debug)]
pub struct Badge {
    /// What it is about.
    pub kind: BadgeKind,
    /// What it shows.
    pub text: String,
}

/// The figures of a row are those of the first variant that has any, and
/// a document is marked as having some exactly where a variant has.
pub proof fn rows_show_the_first_figures(d: DocView, k: int)
    ensures
        row_of(d).has_photometry <==> exists|i: int|
            0 <= i < d.variants.len() && (#[trigger] d.variants[i]).photometry is Some,
        0 <= k < d.variants.len() && d.variants[k].photometry is Some && (forall|j: int|
            0 <= j < k ==> (#[trigger] d.variants[j]).photometry is None) ==> row_of(d).stats
            == stats_shown(slim_stats(d.variants[k].photometry->0)),
        !row_of(d).has_photometry ==> row_of(d).stats.len() == 0,
{
    first_stats_are_first(d.variants, 0);
    if 0 <= k < d.variants.len() && d.variants[k].photometry is Some && forall|j: int|
        0 <= j < k ==> (#[trigger] d.variants[j]).photometry is None {
        first_stats_at(d.variants, 0, k);
    }
}

proof fn first_stats_are_first(vs: Seq<VariantView>, i: int)
    requires
        0 <= i <= vs.len(),
    ensures
        first_stats(vs, i) is Some <==> exists|k: int|
            i <= k < vs.len() && (#[trigger] vs[k]).photometry is Some,
    decreases vs.len() - i,
{
    if i < vs.len() && vs[i].photometry is None {
        first_stats_are_first(vs, i + 1);
    }
}

proof fn first_stats_at(vs: Seq<VariantView>, i: int, k: int)
    requires
        0 <= i <= k < vs.len(),
        vs[k].photometry is Some,
        forall|j: int| i <= j < k ==> (#[trigger] vs[j]).photometry is None,
    ensures
        first_stats(vs, i) == vs[k].photometry,
    decreases k - i,
{
    if i < k {
        assert(vs[i].photometry is None);
        first_stats_at(vs, i + 1, k);
    }
}

/// A row names its document, counts its variants where there are
/// several, and has a line for each of them, in their order and numbered
/// from one.
pub proof fn rows_have_a_line_for_each_variant(d: DocView, i: int)
    requires
        0 <= i < d.variants.len(),
    ensures
        row_of(d).manufacturer == d.manufacturer,
        row_of(d).product == d.product,
        row_of(d).id_hex == hex_text(d.id),
        d.product_code is Some ==> row_of(d).sku == d.product_code,
        d.product_code is None ==> row_of(d).sku == d.gtin,
        row_of(d).variants_label is Some <==> d.variants.len() > 1,
        d.variants.len() > 1 ==> row_of(d).variants_label->0 == decimal(d.variants.len())
            + " variants"@,
        row_of(d).table.len() == d.variants.len(),
        i < 65536 ==> row_of(d).table[i].number == i + 1,
        row_of(d).table[i].name == d.variants[i].name,
        row_of(d).table[i].stats is Some <==> d.variants[i].photometry is Some,
        d.variants[i].photometry is Some ==> row_of(d).table[i].stats->0 == dotted(
            inline_parts(d.variants[i].photometry->0),
        ),
        row_of(d).table[i].mounting == place_text(d.variants[i].mounting_place) + " / "@
            + type_text(d.variants[i].mounting_type),
        d.variants[i].recessed_depth_mm matches Some(n) ==> row_of(d).table[i].depth == decimal(
            n as nat,
        ) + " mm"@,
        d.variants[i].recessed_depth_mm is None ==> row_of(d).table[i].depth.len() == 0,
        row_of(d).keywords.to_multiset() == d.keywords.to_multiset(),
{
    crate::search::sorting_sorts(d.keywords);
}

/// The views of several badges.
pub open spec fn badge_views(v: Seq<Badge>) -> Seq<(BadgeKind, Seq<char>)> {
    v.map_values(|b: Badge| (b.kind, b.text@))
}

/// A badge that may be absent.
pub open spec fn badge_of(kind: BadgeKind, s: Option<Seq<char>>) -> Seq<(BadgeKind, Seq<char>)> {
    match s {
        Some(t) => seq![(kind, t)],
        None => Seq::empty(),
    }
}

/// A badge that is there or not.
pub open spec fn badge_if(kind: BadgeKind, there: bool, s: Seq<char>) -> Seq<
    (BadgeKind, Seq<char>),
> {
    if there {
        seq![(kind, s)]
    } else {
        Seq::empty()
    }
}

/// The badges of a row: IP code, lamp, control gear, mounting, depth, 3D
/// model, emergency lighting, and the last levels of the applications.
pub open spec fn badges_of(p: VariantPayloadSlim) -> Seq<(BadgeKind, Seq<char>)> {
    badge_of(BadgeKind::Ip, opt_text(p.ip_code)) + badge_of(
        BadgeKind::Lamp,
        opt_text(p.lamp_type),
    ) + Seq::new(
        p.control_gear_interfaces@.len(),
        |i: int| (BadgeKind::ControlGear, p.control_gear_interfaces@[i]@),
    ) + badge_of(BadgeKind::Mounting, opt_text(p.mounting)) + badge_of(
        BadgeKind::Depth,
        match p.recessed_depth_mm {
            Some(d) => Some(decimal(d as nat) + " mm"@),
            None => None,
        },
    ) + badge_if(BadgeKind::Model, p.has_3d, "3D"@) + badge_if(
        BadgeKind::Emergency,
        p.has_emergency_lighting,
        "emergency"@,
    ) + Seq::new(
        p.applications@.len(),
        |i: int| (BadgeKind::Application, leaf_level(p.applications@[i]@)),
    )
}

/// Adds a badge.
fn add_badge(out: &mut Vec<Badge>, kind: BadgeKind, text: String)
    ensures
        badge_views(final(out)@) == badge_views(old(out)@).push((kind, text@)),
{
    let ghost before = badge_views(out@);
    let ghost t = text@;
    out.push(Badge { kind, text });
    proof {
        assert(badge_views(out@) =~= before.push((kind, t)));
    }
}

/// Adds a badge that may be absent.
fn add_optional(out: &mut Vec<Badge>, kind: BadgeKind, s: &Option<String>)
    ensures
        badge_views(final(out)@) == badge_views(old(out)@) + badge_of(kind, opt_text(*s)),
{
    let ghost before = badge_views(out@);
    match s {
        Some(t) => {
            add_badge(out, kind, t.clone());
            proof {
                assert(badge_views(out@) =~= before + seq![(kind, t@)]);
            }
        },
        None => {
            proof {
                assert(before + Seq::<(BadgeKind, Seq<char>)>::empty() =~= before);
            }
        },
    }
}

/// Adds the badges of a list.
fn add_list(out: &mut Vec<Badge>, kind: BadgeKind, list: &Vec<String>, leaves: bool)
    ensures
        badge_views(final(out)@) == badge_views(old(out)@) + Seq::new(
            list@.len(),
            |i: int|
                (
                    kind,
                    if leaves {
                        leaf_level(list@[i]@)
                    } else {
                        list@[i]@
                    },
                ),
        ),
{
    let ghost before = badge_views(out@);
    let ghost all = Seq::new(
        list@.len(),
        |i: int|
            (
                kind,
                if leaves {
                    leaf_level(list@[i]@)
                } else {
                    list@[i]@
                },
            ),
    );
    let mut i: usize = 0;
    proof {
        assert(before + all.take(0) =~= before);
    }
    while i < list.len()
        invariant
            i <= list@.len() == all.len(),
            forall|k: int|
                0 <= k < all.len() ==> #[trigger] all[k] == (
                    kind,
                    if leaves {
                        leaf_level(list@[k]@)
                    } else {
                        list@[k]@
                    },
                ),
            badge_views(out@) == before + all.take(i as int),
        decreases list@.len() - i,
    {
        let text: String = if leaves {
            leaf_of(list[i].as_str())
        } else {
            list[i].clone()
        };
        add_badge(out, kind, text);
        proof {
            assert((before + all.take(i as int)).push(all[i as int]) =~= before + all.take(
                i + 1,
            ));
        }
        i += 1;
    }
    proof {
        assert(all.take(all.len() as int) =~= all);
    }
}

/// A row has a badge for each mark that its variant has, and for no
/// other.
pub proof fn badges_are_the_marks(p: VariantPayloadSlim, x: Seq<char>)
    ensures
        badges_of(p).contains((BadgeKind::Ip, x)) <==> p.ip_code is Some && p.ip_code->0@ == x,
        badges_of(p).contains((BadgeKind::Lamp, x)) <==> p.lamp_type is Some && p.lamp_type->0@ == x,
        badges_of(p).contains((BadgeKind::Mounting, x)) <==> p.mounting is Some && p.mounting->0@
            == x,
        badges_of(p).contains((BadgeKind::Depth, x)) <==> p.recessed_depth_mm is Some && x
            == decimal(p.recessed_depth_mm->0 as nat) + " mm"@,
        badges_of(p).contains((BadgeKind::Model, x)) <==> p.has_3d && x == "3D"@,
        badges_of(p).contains((BadgeKind::Emergency, x)) <==> p.has_emergency_lighting && x
            == "emergency"@,
        badges_of(p).contains((BadgeKind::ControlGear, x)) <==> exists|i: int|
            0 <= i < p.control_gear_interfaces@.len() && (
            #[trigger] p.control_gear_interfaces@[i])@ == x,
        badges_of(p).contains((BadgeKind::Application, x)) <==> exists|i: int|
            0 <= i < p.applications@.len() && leaf_level((#[trigger] p.applications@[i])@) == x,
{
    badge_parts(p, (BadgeKind::Ip, x));
    badge_parts(p, (BadgeKind::Lamp, x));
    badge_parts(p, (BadgeKind::Mounting, x));
    badge_parts(p, (BadgeKind::Depth, x));
    badge_parts(p, (BadgeKind::Model, x));
    badge_parts(p, (BadgeKind::Emergency, x));
    badge_parts(p, (BadgeKind::ControlGear, x));
    badge_parts(p, (BadgeKind::Application, x));
}

/// A badge is told by its kind.
#[verifier::spinoff_prover]
proof fn badge_parts(p: VariantPayloadSlim, w: (BadgeKind, Seq<char>))
    ensures
        badges_of(p).contains(w) <==> match w.0 {
            BadgeKind::Ip => p.ip_code is Some && p.ip_code->0@ == w.1,
            BadgeKind::Lamp => p.lamp_type is Some && p.lamp_type->0@ == w.1,
            BadgeKind::Mounting => p.mounting is Some && p.mounting->0@ == w.1,
            BadgeKind::Depth => p.recessed_depth_mm is Some && w.1 == decimal(
                p.recessed_depth_mm->0 as nat,
            ) + " mm"@,
            BadgeKind::Model => p.has_3d && w.1 == "3D"@,
            BadgeKind::Emergency => p.has_emergency_lighting && w.1 == "emergency"@,
            BadgeKind::ControlGear => exists|i: int|
                0 <= i < p.control_gear_interfaces@.len() && (
                #[trigger] p.control_gear_interfaces@[i])@ == w.1,
            BadgeKind::Application => exists|i: int|
                0 <= i < p.applications@.len() && leaf_level((#[trigger] p.applications@[i])@)
                    == w.1,
        },
{
    let a = badge_of(BadgeKind::Ip, opt_text(p.ip_code));
    let b = badge_of(BadgeKind::Lamp, opt_text(p.lamp_type));
    let c = Seq::new(
        p.control_gear_interfaces@.len(),
        |i: int| (BadgeKind::ControlGear, p.control_gear_interfaces@[i]@),
    );
    let d = badge_of(BadgeKind::Mounting, opt_text(p.mounting));
    let depth = match p.recessed_depth_mm {
        Some(d) => Some(decimal(d as nat) + " mm"@),
        None => None,
    };
    let e = badge_of(BadgeKind::Depth, depth);
    let f = badge_if(BadgeKind::Model, p.has_3d, "3D"@);
    let g = badge_if(BadgeKind::Emergency, p.has_emergency_lighting, "emergency"@);
    let h = Seq::new(
        p.applications@.len(),
        |i: int| (BadgeKind::Application, leaf_level(p.applications@[i]@)),
    );
    assert(badges_of(p) == a + b + c + d + e + f + g + h);
    badge_in_either(a, b, w);
    badge_in_either(a + b, c, w);
    badge_in_either(a + b + c, d, w);
    badge_in_either(a + b + c + d, e, w);
    badge_in_either(a + b + c + d + e, f, w);
    badge_in_either(a + b + c + d + e + f, g, w);
    badge_in_either(a + b + c + d + e + f + g, h, w);
    badge_of_one(BadgeKind::Ip, opt_text(p.ip_code), w);
    badge_of_one(BadgeKind::Lamp, opt_text(p.lamp_type), w);
    badge_of_one(BadgeKind::Mounting, opt_text(p.mounting), w);
    badge_of_one(BadgeKind::Depth, depth, w);
    badge_of_one(
        BadgeKind::Model,
        if p.has_3d {
            Some("3D"@)
        } else {
            None
        },
        w,
    );
    badge_of_one(
        BadgeKind::Emergency,
        if p.has_emergency_lighting {
            Some("emergency"@)
        } else {
            None
        },
        w,
    );
    if w.0 == BadgeKind::ControlGear && exists|i: int|
        0 <= i < p.control_gear_interfaces@.len() && (#[trigger] p.control_gear_interfaces@[i])@
            == w.1 {
        let i = choose|i: int|
            0 <= i < p.control_gear_interfaces@.len() && (
            #[trigger] p.control_gear_interfaces@[i])@ == w.1;
        assert(c[i] == w);
    }
    if w.0 == BadgeKind::Application && exists|i: int|
        0 <= i < p.applications@.len() && leaf_level((#[trigger] p.applications@[i])@) == w.1 {
        let i = choose|i: int|
            0 <= i < p.applications@.len() && leaf_level((#[trigger] p.applications@[i])@) == w.1;
        assert(h[i] == w);
    }
}

proof fn badge_of_one(kind: BadgeKind, s: Option<Seq<char>>, w: (BadgeKind, Seq<char>))
    ensures
        badge_of(kind, s).contains(w) <==> w.0 == kind && s == Some(w.1),
{
    if s is Some {
        assert(badge_of(kind, s)[0] == (kind, s->0));
    }
}

proof fn badge_in_either(
    a: Seq<(BadgeKind, Seq<char>)>,
    b: Seq<(BadgeKind, Seq<char>)>,
    w: (BadgeKind, Seq<char>),
)
    ensures
        (a + b).contains(w) <==> a.contains(w) || b.contains(w),
{
    if a.contains(w) {
        let i = choose|i: int| 0 <= i < a.len() && a[i] == w;
        assert((a + b)[i] == w);
    }
    if b.contains(w) {
        let i = choose|i: int| 0 <= i < b.len() && b[i] == w;
        assert((a + b)[a.len() + i] == w);
    }
}

/// The badges of a row.
pub fn row_badges(p: &VariantPayloadSlim) -> (out: Vec<Badge>)
    ensures
        badge_views(out@) == badges_of(*p),
{
    let mut out: Vec<Badge> = Vec::new();
    proof {
        assert(badge_views(out@) =~= Seq::empty());
    }
    add_optional(&mut out, BadgeKind::Ip, &p.ip_code);
    add_optional(&mut out, BadgeKind::Lamp, &p.lamp_type);
    add_list(&mut out, BadgeKind::ControlGear, &p.control_gear_interfaces, false);
    add_optional(&mut out, BadgeKind::Mounting, &p.mounting);
    let depth: Option<String> = match p.recessed_depth_mm {
        Some(d) => {
            let mut s: String = to_decimal(d as u64);
            push_text(&mut s, " mm");
            Some(s)
        },
        None => None,
    };
    add_optional(&mut out, BadgeKind::Depth, &depth);
    let model: Option<String> = if p.has_3d {
        Some(owned("3D"))
    } else {
        None
    };
    add_optional(&mut out, BadgeKind::Model, &model);
    let emergency: Option<String> = if p.has_emergency_lighting {
        Some(owned("emergency"))
    } else {
        None
    };
    add_optional(&mut out, BadgeKind::Emergency, &emergency);
    add_list(&mut out, BadgeKind::Application, &p.applications, true);
    proof {
        assert(badge_views(out@) =~= badges_of(*p));
    }
    out
}

/// The label of the button that opens and closes a description.
pub fn description_label(open: bool) -> (r: &'static str)
    ensures
        r@ == (if open {
            "less"@
        } else {
            "more"@
        }),
{
    if open {
        "less"
    } else {
        "more"
    }
}

// ---------------------------------------------------------------------
// The pane
// ---------------------------------------------------------------------

/// The pane below a row. The drawing is empty where there is none.
#[derive(Debug)]
pub struct Pane {
    /// Whether it is open.
    pub open: bool,
    /// The variant that it shows; none for the document's first file.
    pub variant: Option<u16>,
    /// The drawing, once it is there.
    pub polar: Option<String>,
    /// Whether the drawing is awaited.
    pub polar_loading: bool,
    /// The picture, once it is known whether there is one.
    pub image: Option<Option<ProductImage>>,
    /// Whether the picture is awaited.
    pub image_loading: bool,
}

/// What stands in the place of the drawing.
#[derive(Clone, Copy, PartialEq, Eq, Debug, Structural)]
pub enum PolarView {
    /// Nothing.
    Nothing,
    /// A notice that it is being drawn.
    Loading,
    /// The drawing.
    Drawing,
    /// A notice that there is none.
    NoData,
}

impl Pane {
    /// Whether curve and picture of a variant are awaited.
    pub open spec fn awaits(&self, variant: Option<u16>) -> bool {
        &&& self.open
        &&& self.variant == variant
        &&& self.polar is None
        &&& self.polar_loading
        &&& self.image is None
        &&& self.image_loading
    }

    /// A pane that is closed.
    pub fn closed() -> (r: Pane)
        ensures
            !r.open,
            r.variant is None,
            r.polar is None,
            !r.polar_loading,
            r.image is None,
            !r.image_loading,
    {
        Pane {
            open: false,
            variant: None,
            polar: None,
            polar_loading: false,
            image: None,
            image_loading: false,
        }
    }

    /// Opens the pane for a variant; curve and picture are to be fetched.
    pub fn fire(&mut self, variant: Option<u16>)
        ensures
            final(self).awaits(variant),
    {
        self.variant = variant;
        self.open = true;
        self.polar = None;
        self.image = None;
        self.polar_loading = true;
        self.image_loading = true;
    }

    /// Closes an open pane, and opens a closed one for the variant that
    /// it showed last. Whether curve and picture are to be fetched.
    pub fn toggle(&mut self) -> (fetch: bool)
        ensures
            fetch == !old(self).open,
            fetch ==> final(self).awaits(old(self).variant),
            !fetch ==> *final(self) == (Pane { open: false, ..*old(self) }),
    {
        if self.open {
            self.open = false;
            return false;
        }
        let variant: Option<u16> = self.variant;
        self.fire(variant);
        true
    }

    /// The drawing has come, or it has come out that there is none.
    pub fn polar_arrived(&mut self, svg: Option<String>)
        ensures
            !final(self).polar_loading,
            final(self).polar matches Some(s) && s@ == (match svg {
                Some(t) => t@,
                None => Seq::empty(),
            }),
            final(self).open == old(self).open,
            final(self).variant == old(self).variant,
            final(self).image == old(self).image,
            final(self).image_loading == old(self).image_loading,
    {
        self.polar_loading = false;
        let s: String = match svg {
            Some(t) => t,
            None => {
                let e: String = String::new();
                proof {
                    assert(e@ =~= Seq::empty());
                }
                e
            },
        };
        self.polar = Some(s);
    }

    /// The picture has come, or it has come out that there is none.
    pub fn image_arrived(&mut self, image: Option<ProductImage>)
        ensures
            *final(self) == (Pane {
                image: Some(image),
                image_loading: false,
                ..*old(self)
            }),
    {
        self.image_loading = false;
        self.image = Some(image);
    }

    /// What stands in the place of the drawing.
    pub fn polar_view(&self) -> (r: PolarView)
        ensures
            r == (if !self.open {
                PolarView::Nothing
            } else if self.polar_loading {
                PolarView::Loading
            } else {
                match self.polar {
                    Some(s) => if s@.len() > 0 {
                        PolarView::Drawing
                    } else {
                        PolarView::NoData
                    },
                    None => PolarView::Nothing,
                }
            }),
    {
        if !self.open {
            PolarView::Nothing
        } else if self.polar_loading {
            PolarView::Loading
        } else {
            match &self.polar {
                Some(s) => {
                    if s.as_str().is_empty() {
                        PolarView::NoData
                    } else {
                        PolarView::Drawing
                    }
                },
                None => PolarView::Nothing,
            }
        }
    }

    /// The label of the button that opens and closes the pane.
    pub fn button_label(&self) -> (r: &'static str)
        ensures
            r@ == (if self.open {
                "\u{2191} Hide polar"@
            } else {
                "\u{2193} Polar"@
            }),
    {
        if self.open {
            "\u{2191} Hide polar"
        } else {
            "\u{2193} Polar"
        }
    }

    /// Which variant is shown, of how many.
    pub fn variant_label(&self, count: usize) -> (r: Option<String>)
        ensures
            opt_text(r) == (match self.variant {
                Some(i) => Some(
                    "Variant "@ + decimal((i + 1) as nat) + " of "@ + decimal(count as nat),
                ),
                None => None,
            }),
    {
        match self.variant {
            Some(i) => {
                let mut s: String = owned("Variant ");
                push_text(&mut s, to_decimal(i as u64 + 1).as_str());
                push_text(&mut s, " of ");
                push_text(&mut s, to_decimal(count as u64).as_str());
                Some(s)
            },
            None => None,
        }
    }
}

} // verus!
