//! A report as lines of text.

use crate::inspect::{
    pair_views, summary_views, variant_summary_views, FileSummary, Report, ReportView,
    VariantSummary, VariantSummaryView,
};
use crate::product::FileView;
use crate::text::{
    chars_of, decimal, opt_text, owned, push_text, string_of_range, texts, to_decimal,
};
use vstd::prelude::*;

verus! {

/// A text in quotes, with what cannot stand there escaped.
pub uninterp spec fn quoted_text(s: Seq<char>) -> Seq<char>;

/// Formats a text with the `Debug` of `str`: in quotes, escaped.
#[verifier::external_body]
fn quoted(s: &str) -> (r: String)
    ensures
        r@ == quoted_text(s@),
{
    format!("{:?}", s)
}

/// Texts in quotes, with commas between them.
pub open spec fn quoted_items(list: Seq<Seq<char>>) -> Seq<char>
    decreases list.len(),
{
    if list.len() == 0 {
        Seq::empty()
    } else if list.len() == 1 {
        quoted_text(list[0])
    } else {
        quoted_items(list.drop_last()) + ", "@ + quoted_text(list.last())
    }
}

/// A list of texts in brackets.
pub open spec fn quoted_list(list: Seq<Seq<char>>) -> Seq<char> {
    "["@ + quoted_items(list) + "]"@
}

/// A set of texts in braces.
pub open spec fn quoted_set(list: Seq<Seq<char>>) -> Seq<char> {
    "{"@ + quoted_items(list) + "}"@
}

/// An optional text in quotes.
pub open spec fn quoted_option(o: Option<Seq<char>>) -> Seq<char> {
    match o {
        Some(s) => "Some("@ + quoted_text(s) + ")"@,
        None => "None"@,
    }
}

/// An optional numeral.
pub open spec fn plain_option(o: Option<Seq<char>>) -> Seq<char> {
    match o {
        Some(s) => "Some("@ + s + ")"@,
        None => "None"@,
    }
}

/// A text, or a stand-in where there is none.
pub open spec fn text_or(o: Option<Seq<char>>, stand_in: Seq<char>) -> Seq<char> {
    match o {
        Some(s) => s,
        None => stand_in,
    }
}

/// The lines about the header and the languages.
pub open spec fn head_lines(r: ReportView) -> Seq<Seq<char>> {
    seq![
        "FILE  "@ + r.path,
        "HEADER"@,
        "  manufacturer:             "@ + r.header.manufacturer,
        "  unique_gldf_id:           "@ + text_or(r.header.unique_gldf_id, "(absent)"@),
        "  default_language:         "@ + text_or(r.header.default_language, "(absent)"@),
        "  created_with_application: "@ + r.header.created_with_application,
        "  format_version:           "@ + r.header.format_version,
        "LOCALES SEEN  "@ + quoted_set(r.locales),
        "FILES   photometric="@ + decimal(r.files.photometric.len()) + ", images="@ + decimal(
            r.files.images.len(),
        ) + ", geometries="@ + decimal(r.files.geometries.len()) + ", spectra="@ + decimal(
            r.files.spectra.len(),
        ) + ", other="@ + decimal(r.files.other.len()),
    ]
}

/// The line about a file.
pub open spec fn file_line(tag: Seq<char>, f: FileView) -> Seq<char> {
    tag + f.id + " type="@ + f.content_type + "/"@ + f.type_attr + " \u{2192} "@ + f.file_name
}

/// The lines about several files.
pub open spec fn file_lines(tag: Seq<char>, files: Seq<FileView>) -> Seq<Seq<char>> {
    Seq::new(files.len(), |i: int| file_line(tag, files[i]))
}

/// A text of at most a hundred and twenty characters, with a mark where
/// more stood there.
pub open spec fn shortened(s: Seq<char>) -> Seq<char> {
    if s.len() > 120 {
        s.take(120) + "\u{2026}"@
    } else {
        s
    }
}

/// The lines about texts with their languages.
pub open spec fn name_lines(names: Seq<(Seq<char>, Seq<char>)>) -> Seq<Seq<char>> {
    if names.len() == 0 {
        Seq::empty()
    } else {
        seq!["     name:"@] + Seq::new(
            names.len(),
            |i: int| "       ["@ + names[i].0 + "] "@ + names[i].1,
        )
    }
}

/// The lines about descriptions with their languages.
pub open spec fn description_lines(texts: Seq<(Seq<char>, Seq<char>)>) -> Seq<Seq<char>> {
    if texts.len() == 0 {
        Seq::empty()
    } else {
        seq!["     description:"@] + Seq::new(
            texts.len(),
            |i: int| "       ["@ + texts[i].0 + "] "@ + shortened(texts[i].1),
        )
    }
}

/// The lines about applications.
pub open spec fn application_lines(applications: Seq<Seq<char>>) -> Seq<Seq<char>> {
    if applications.len() == 0 {
        Seq::empty()
    } else {
        seq!["     applications:"@] + Seq::new(
            applications.len(),
            |i: int| "       "@ + applications[i],
        )
    }
}

/// The lines about labels and designer.
pub open spec fn marketing_lines(v: VariantSummaryView) -> Seq<Seq<char>> {
    (if v.labels.len() == 0 {
        Seq::empty()
    } else {
        seq!["     labels:                  "@ + quoted_list(v.labels)]
    }) + (match v.designer {
        Some(d) => seq!["     designer:                "@ + d],
        None => Seq::empty(),
    })
}

/// The line about the mechanical element, where it says anything.
pub open spec fn mechanical_lines(v: VariantSummaryView) -> Seq<Seq<char>> {
    if v.product_form is Some || v.ik_rating is Some || v.adjustabilities.len() > 0
        || v.protective_areas.len() > 0 || v.weight_kg is Some {
        seq![
            "     mechanical: form="@ + quoted_option(v.product_form) + " ik="@ + quoted_option(
                v.ik_rating,
            ) + " adj="@ + quoted_list(v.adjustabilities) + " areas="@ + quoted_list(
                v.protective_areas,
            ) + " weight="@ + plain_option(v.weight_kg),
        ]
    } else {
        Seq::empty()
    }
}

/// The line about the electrical element, where it says anything.
pub open spec fn electrical_lines(v: VariantSummaryView) -> Seq<Seq<char>> {
    if v.ip_code is Some || v.safety_class is Some || v.light_distribution is Some {
        seq![
            "     electrical: ip="@ + quoted_option(v.ip_code) + " safety_class="@
                + quoted_option(v.safety_class) + " light_distribution="@ + quoted_option(
                v.light_distribution,
            ),
        ]
    } else {
        Seq::empty()
    }
}

/// The lines about a variant.
pub open spec fn variant_lines(v: VariantSummaryView) -> Seq<Seq<char>> {
    seq![
        "  -- variant id="@ + v.id + "  gtin="@ + text_or(v.gtin, "(none)"@) + "  mounting="@
            + text_or(v.mountings_kind, "(none)"@),
    ] + name_lines(v.names) + description_lines(v.descriptions) + application_lines(v.applications)
        + marketing_lines(v) + mechanical_lines(v) + electrical_lines(v)
}

/// The lines about the first `n` variants.
pub open spec fn variants_lines(vs: Seq<VariantSummaryView>, n: int) -> Seq<Seq<char>>
    decreases n,
{
    if n <= 0 {
        Seq::empty()
    } else {
        variants_lines(vs, n - 1) + variant_lines(vs[n - 1])
    }
}

/// The lines of a report.
pub open spec fn report_lines(r: ReportView) -> Seq<Seq<char>> {
    head_lines(r) + file_lines("  ldc id="@, r.files.photometric) + file_lines(
        "  img id="@,
        r.files.images,
    ) + seq!["VARIANTS  count="@ + decimal(r.variants.len())] + variants_lines(
        r.variants,
        r.variants.len() as int,
    )
}

// ---------------------------------------------------------------------
// Writing
// ---------------------------------------------------------------------

/// Adds a line.
fn say(lines: &mut Vec<String>, s: String)
    ensures
        texts(final(lines)@) == texts(old(lines)@).push(s@),
{
    let ghost before = texts(lines@);
    let ghost t = s@;
    lines.push(s);
    proof {
        assert(texts(lines@) =~= before.push(t));
    }
}

/// Adds a line of two parts.
fn say_two(lines: &mut Vec<String>, a: &str, b: &str)
    ensures
        texts(final(lines)@) == texts(old(lines)@).push(a@ + b@),
{
    let mut s: String = owned(a);
    push_text(&mut s, b);
    say(lines, s)
}

/// Texts in quotes, with commas between them.
fn write_items(list: &Vec<String>) -> (r: String)
    ensures
        r@ == quoted_items(texts(list@)),
{
    let ghost all = texts(list@);
    let mut r: String = String::new();
    let mut i: usize = 0;
    proof {
        assert(all.take(0) =~= Seq::empty());
        assert(r@ =~= Seq::empty());
    }
    while i < list.len()
        invariant
            i <= list@.len(),
            all == texts(list@),
            r@ == quoted_items(all.take(i as int)),
        decreases list@.len() - i,
    {
        proof {
            assert(all[i as int] == list@[i as int]@);
            assert(all.take(i + 1).drop_last() =~= all.take(i as int));
            assert(all.take(i + 1).last() == all[i as int]);
        }
        if i > 0 {
            push_text(&mut r, ", ");
        }
        let ghost before = r@;
        push_text(&mut r, quoted(list[i].as_str()).as_str());
        proof {
            if i == 0 {
                assert(r@ =~= quoted_text(all[0]));
            }
        }
        i += 1;
    }
    proof {
        assert(all.take(all.len() as int) =~= all);
    }
    r
}

/// Texts in quotes between two marks.
fn write_between(open: &str, list: &Vec<String>, close: &str) -> (r: String)
    ensures
        r@ == open@ + quoted_items(texts(list@)) + close@,
{
    let mut r: String = owned(open);
    push_text(&mut r, write_items(list).as_str());
    push_text(&mut r, close);
    r
}

/// An optional text in quotes.
fn write_option(o: &Option<String>) -> (r: String)
    ensures
        r@ == quoted_option(opt_text(*o)),
{
    match o {
        Some(s) => {
            let mut r: String = owned("Some(");
            push_text(&mut r, quoted(s.as_str()).as_str());
            push_text(&mut r, ")");
            r
        },
        None => owned("None"),
    }
}

/// An optional numeral.
fn write_plain(o: &Option<String>) -> (r: String)
    ensures
        r@ == plain_option(opt_text(*o)),
{
    match o {
        Some(s) => {
            let mut r: String = owned("Some(");
            push_text(&mut r, s.as_str());
            push_text(&mut r, ")");
            r
        },
        None => owned("None"),
    }
}

/// A text, or a stand-in where there is none.
fn or_else(o: &Option<String>, stand_in: &str) -> (r: String)
    ensures
        r@ == text_or(opt_text(*o), stand_in@),
{
    match o {
        Some(s) => s.clone(),
        None => owned(stand_in),
    }
}

/// Adds the lines about the header and the languages.
fn write_head(r: &Report) -> (lines: Vec<String>)
    ensures
        texts(lines@) == head_lines(r@),
{
    let mut lines: Vec<String> = Vec::new();
    proof {
        assert(texts(lines@) =~= Seq::empty());
    }
    say_two(&mut lines, "FILE  ", r.path.as_str());
    say(&mut lines, owned("HEADER"));
    say_two(&mut lines, "  manufacturer:             ", r.header.manufacturer.as_str());
    say_two(
        &mut lines,
        "  unique_gldf_id:           ",
        or_else(&r.header.unique_gldf_id, "(absent)").as_str(),
    );
    say_two(
        &mut lines,
        "  default_language:         ",
        or_else(&r.header.default_language, "(absent)").as_str(),
    );
    say_two(
        &mut lines,
        "  created_with_application: ",
        r.header.created_with_application.as_str(),
    );
    say_two(&mut lines, "  format_version:           ", r.header.format_version.as_str());
    say_two(&mut lines, "LOCALES SEEN  ", write_between("{", &r.locales, "}").as_str());
    let mut s: String = owned("FILES   photometric=");
    push_text(&mut s, to_decimal(r.files.photometric.len() as u64).as_str());
    push_text(&mut s, ", images=");
    push_text(&mut s, to_decimal(r.files.images.len() as u64).as_str());
    push_text(&mut s, ", geometries=");
    push_text(&mut s, to_decimal(r.files.geometries.len() as u64).as_str());
    push_text(&mut s, ", spectra=");
    push_text(&mut s, to_decimal(r.files.spectra.len() as u64).as_str());
    push_text(&mut s, ", other=");
    push_text(&mut s, to_decimal(r.files.other.len() as u64).as_str());
    say(&mut lines, s);
    proof {
        assert(texts(lines@) =~= head_lines(r@));
    }
    lines
}

/// Adds the lines about several files.
fn write_files(lines: &mut Vec<String>, tag: &str, files: &Vec<FileSummary>)
    ensures
        texts(final(lines)@) == texts(old(lines)@) + file_lines(tag@, summary_views(files@)),
{
    let ghost before = texts(lines@);
    let ghost all = file_lines(tag@, summary_views(files@));
    let mut i: usize = 0;
    proof {
        assert(before + all.take(0) =~= before);
    }
    while i < files.len()
        invariant
            i <= files@.len(),
            all == file_lines(tag@, summary_views(files@)),
            texts(lines@) == before + all.take(i as int),
        decreases files@.len() - i,
    {
        let f: &FileSummary = &files[i];
        let mut s: String = owned(tag);
        push_text(&mut s, f.id.as_str());
        push_text(&mut s, " type=");
        push_text(&mut s, f.content_type.as_str());
        push_text(&mut s, "/");
        push_text(&mut s, f.type_attr.as_str());
        push_text(&mut s, " \u{2192} ");
        push_text(&mut s, f.file_name.as_str());
        proof {
            assert(summary_views(files@)[i as int] == f@);
            assert(s@ == all[i as int]);
            assert((before + all.take(i as int)).push(all[i as int]) =~= before + all.take(i + 1));
        }
        say(lines, s);
        i += 1;
    }
    proof {
        assert(all.take(all.len() as int) =~= all);
    }
}

/// A text of at most a hundred and twenty characters.
fn shorten(s: &str) -> (r: String)
    ensures
        r@ == shortened(s@),
{
    let cs: Vec<char> = chars_of(s);
    if cs.len() > 120 {
        let mut r: String = string_of_range(&cs, 0, 120);
        proof {
            assert(cs@.subrange(0, 120) =~= cs@.take(120));
        }
        push_text(&mut r, "\u{2026}");
        r
    } else {
        owned(s)
    }
}

/// Adds the lines about texts with their languages.
fn write_pairs(lines: &mut Vec<String>, pairs: &Vec<(String, String)>, long: bool)
    ensures
        texts(final(lines)@) == texts(old(lines)@) + (if long {
            description_lines(pair_views(pairs@))
        } else {
            name_lines(pair_views(pairs@))
        }),
{
    let ghost before = texts(lines@);
    let ghost views = pair_views(pairs@);
    let ghost all = if long {
        description_lines(views)
    } else {
        name_lines(views)
    };
    if pairs.len() == 0 {
        proof {
            assert(before + all =~= before);
        }
        return;
    }
    say(
        lines,
        owned(
            if long {
                "     description:"
            } else {
                "     name:"
            },
        ),
    );
    let mut i: usize = 0;
    proof {
        assert(texts(lines@) =~= before + all.take(1));
    }
    while i < pairs.len()
        invariant
            i <= pairs@.len(),
            pairs@.len() > 0,
            views == pair_views(pairs@),
            all == (if long {
                description_lines(views)
            } else {
                name_lines(views)
            }),
            all.len() == pairs@.len() + 1,
            texts(lines@) == before + all.take(i + 1),
        decreases pairs@.len() - i,
    {
        let mut s: String = owned("       [");
        push_text(&mut s, pairs[i].0.as_str());
        push_text(&mut s, "] ");
        if long {
            push_text(&mut s, shorten(pairs[i].1.as_str()).as_str());
        } else {
            push_text(&mut s, pairs[i].1.as_str());
        }
        proof {
            assert(views[i as int] == (pairs@[i as int].0@, pairs@[i as int].1@));
            assert(s@ == all[i + 1]);
            assert((before + all.take(i + 1)).push(all[i + 1]) =~= before + all.take(i + 2));
        }
        say(lines, s);
        i += 1;
    }
    proof {
        assert(all.take(all.len() as int) =~= all);
    }
}

/// Adds the lines about applications.
fn write_applications(lines: &mut Vec<String>, list: &Vec<String>)
    ensures
        texts(final(lines)@) == texts(old(lines)@) + application_lines(texts(list@)),
{
    let ghost before = texts(lines@);
    let ghost views = texts(list@);
    let ghost all = application_lines(views);
    if list.len() == 0 {
        proof {
            assert(before + all =~= before);
        }
        return;
    }
    say(lines, owned("     applications:"));
    let mut i: usize = 0;
    proof {
        assert(texts(lines@) =~= before + all.take(1));
    }
    while i < list.len()
        invariant
            i <= list@.len(),
            list@.len() > 0,
            views == texts(list@),
            all == application_lines(views),
            all.len() == list@.len() + 1,
            texts(lines@) == before + all.take(i + 1),
        decreases list@.len() - i,
    {
        let ghost had = texts(lines@);
        say_two(lines, "       ", list[i].as_str());
        proof {
            assert(views[i as int] == list@[i as int]@);
            assert(texts(lines@) == had.push(all[i + 1]));
            assert((before + all.take(i + 1)).push(all[i + 1]) =~= before + all.take(i + 2));
        }
        i += 1;
    }
    proof {
        assert(all.take(all.len() as int) =~= all);
    }
}

/// Adds the lines about labels, designer, mechanical and electrical
/// elements.
fn write_elements(lines: &mut Vec<String>, v: &VariantSummary)
    ensures
        texts(final(lines)@) == texts(old(lines)@) + marketing_lines(v@) + mechanical_lines(v@)
            + electrical_lines(v@),
{
    let ghost before = texts(lines@);
    if v.marketing.labels.len() > 0 {
        say_two(
            lines,
            "     labels:                  ",
            write_between("[", &v.marketing.labels, "]").as_str(),
        );
    }
    match &v.marketing.designer {
        Some(d) => say_two(lines, "     designer:                ", d.as_str()),
        None => {},
    }
    proof {
        assert(texts(lines@) =~= before + marketing_lines(v@));
    }
    if v.mechanical.product_form.is_some() || v.mechanical.ik_rating.is_some()
        || v.mechanical.adjustabilities.len() > 0 || v.mechanical.protective_areas.len() > 0
        || v.mechanical.weight_kg.is_some() {
        let mut s: String = owned("     mechanical: form=");
        push_text(&mut s, write_option(&v.mechanical.product_form).as_str());
        push_text(&mut s, " ik=");
        push_text(&mut s, write_option(&v.mechanical.ik_rating).as_str());
        push_text(&mut s, " adj=");
        push_text(&mut s, write_between("[", &v.mechanical.adjustabilities, "]").as_str());
        push_text(&mut s, " areas=");
        push_text(&mut s, write_between("[", &v.mechanical.protective_areas, "]").as_str());
        push_text(&mut s, " weight=");
        push_text(&mut s, write_plain(&v.mechanical.weight_kg).as_str());
        say(lines, s);
    }
    proof {
        assert(texts(lines@) =~= before + marketing_lines(v@) + mechanical_lines(v@));
    }
    if v.electrical.ip_code.is_some() || v.electrical.safety_class.is_some()
        || v.electrical.light_distribution.is_some() {
        let mut s: String = owned("     electrical: ip=");
        push_text(&mut s, write_option(&v.electrical.ip_code).as_str());
        push_text(&mut s, " safety_class=");
        push_text(&mut s, write_option(&v.electrical.safety_class).as_str());
        push_text(&mut s, " light_distribution=");
        push_text(&mut s, write_option(&v.electrical.light_distribution).as_str());
        say(lines, s);
    }
    proof {
        assert(texts(lines@) =~= before + marketing_lines(v@) + mechanical_lines(v@)
            + electrical_lines(v@));
    }
}

/// Adds the lines about a variant.
fn write_variant(lines: &mut Vec<String>, v: &VariantSummary)
    ensures
        texts(final(lines)@) == texts(old(lines)@) + variant_lines(v@),
{
    let ghost before = texts(lines@);
    let mut s: String = owned("  -- variant id=");
    push_text(&mut s, v.id.as_str());
    push_text(&mut s, "  gtin=");
    push_text(&mut s, or_else(&v.gtin, "(none)").as_str());
    push_text(&mut s, "  mounting=");
    push_text(
        &mut s,
        match v.mountings_kind {
            Some(m) => m,
            None => "(none)",
        },
    );
    say(lines, s);
    write_pairs(lines, &v.name_per_locale, false);
    write_pairs(lines, &v.description_per_locale, true);
    write_applications(lines, &v.marketing.applications);
    write_elements(lines, v);
    proof {
        assert(texts(lines@) =~= before + variant_lines(v@));
    }
}

/// The lines of a report.
pub fn print_report(r: &Report) -> (lines: Vec<String>)
    ensures
        texts(lines@) == report_lines(r@),
{
    let mut lines: Vec<String> = write_head(r);
    write_files(&mut lines, "  ldc id=", &r.files.photometric);
    write_files(&mut lines, "  img id=", &r.files.images);
    let ghost files = texts(lines@);
    say_two(&mut lines, "VARIANTS  count=", to_decimal(r.variants.len() as u64).as_str());
    let ghost top = texts(lines@);
    let ghost vs = r@.variants;
    let mut i: usize = 0;
    proof {
        assert(top =~= files + seq!["VARIANTS  count="@ + decimal(vs.len())]);
        assert(top + variants_lines(vs, 0) =~= top);
    }
    while i < r.variants.len()
        invariant
            i <= r.variants@.len(),
            vs == variant_summary_views(r.variants@),
            texts(lines@) == top + variants_lines(vs, i as int),
        decreases r.variants@.len() - i,
    {
        let ghost had = texts(lines@);
        write_variant(&mut lines, &r.variants[i]);
        proof {
            assert(vs[i as int] == r.variants@[i as int]@);
            assert(had + variant_lines(vs[i as int]) =~= top + variants_lines(vs, i + 1));
        }
        i += 1;
    }
    lines
}

/// A report says how many variants there are, and has a line for each with
/// its id, its trade number and its mounting.
#[verifier::spinoff_prover]
pub proof fn reports_have_a_line_for_each_variant(r: ReportView, i: int)
    requires
        0 <= i < r.variants.len(),
    ensures
        report_lines(r).contains("VARIANTS  count="@ + decimal(r.variants.len())),
        report_lines(r).contains(
            "  -- variant id="@ + r.variants[i].id + "  gtin="@ + text_or(
                r.variants[i].gtin,
                "(none)"@,
            ) + "  mounting="@ + text_or(r.variants[i].mountings_kind, "(none)"@),
        ),
{
    let v = r.variants[i];
    let line = "  -- variant id="@ + v.id + "  gtin="@ + text_or(v.gtin, "(none)"@)
        + "  mounting="@ + text_or(v.mountings_kind, "(none)"@);
    assert(variant_lines(v)[0] == line);
    let n = r.variants.len() as int;
    let tail = variants_lines(r.variants, n);
    variant_lines_are_kept(r.variants, n, i, line);
    let count = "VARIANTS  count="@ + decimal(r.variants.len());
    let one = seq![count];
    assert(one[0] == count);
    let head = head_lines(r) + file_lines("  ldc id="@, r.files.photometric) + file_lines(
        "  img id="@,
        r.files.images,
    );
    assert(report_lines(r) == head + one + tail);
    line_in_either(head, one, count);
    line_in_either(head + one, tail, count);
    line_in_either(head + one, tail, line);
}

proof fn line_in_either(a: Seq<Seq<char>>, b: Seq<Seq<char>>, x: Seq<char>)
    ensures
        (a + b).contains(x) <==> a.contains(x) || b.contains(x),
{
    if a.contains(x) {
        let i = choose|i: int| 0 <= i < a.len() && a[i] == x;
        assert((a + b)[i] == x);
    }
    if b.contains(x) {
        let i = choose|i: int| 0 <= i < b.len() && b[i] == x;
        assert((a + b)[a.len() + i] == x);
    }
}

proof fn variant_lines_are_kept(vs: Seq<VariantSummaryView>, n: int, i: int, x: Seq<char>)
    requires
        0 <= i < n <= vs.len(),
        variant_lines(vs[i]).contains(x),
    ensures
        variants_lines(vs, n).contains(x),
    decreases n,
{
    line_in_either(variants_lines(vs, n - 1), variant_lines(vs[n - 1]), x);
    if i < n - 1 {
        variant_lines_are_kept(vs, n - 1, i, x);
    }
}

/// A report names its path, the fields of its header, and the photometric
/// files and images.
pub proof fn reports_name_header_and_files(r: ReportView, i: int)
    ensures
        report_lines(r)[0] == "FILE  "@ + r.path,
        report_lines(r)[2] == "  manufacturer:             "@ + r.header.manufacturer,
        r.header.unique_gldf_id matches Some(s) ==> report_lines(r)[3]
            == "  unique_gldf_id:           "@ + s,
        r.header.unique_gldf_id is None ==> report_lines(r)[3] == "  unique_gldf_id:           "@
            + "(absent)"@,
        r.header.default_language matches Some(s) ==> report_lines(r)[4]
            == "  default_language:         "@ + s,
        report_lines(r)[5] == "  created_with_application: "@ + r.header.created_with_application,
        report_lines(r)[6] == "  format_version:           "@ + r.header.format_version,
        0 <= i < r.files.photometric.len() ==> report_lines(r)[9 + i] == "  ldc id="@
            + r.files.photometric[i].id + " type="@ + r.files.photometric[i].content_type + "/"@
            + r.files.photometric[i].type_attr + " \u{2192} "@
            + r.files.photometric[i].file_name,
        0 <= i < r.files.images.len() ==> report_lines(r)[9 + r.files.photometric.len() + i]
            == "  img id="@ + r.files.images[i].id + " type="@ + r.files.images[i].content_type
            + "/"@ + r.files.images[i].type_attr + " \u{2192} "@ + r.files.images[i].file_name,
{
}

/// The lines of a variant name its texts with their languages, long
/// descriptions cut behind a hundred and twenty characters, and its
/// applications.
#[verifier::spinoff_prover]
pub proof fn variants_name_their_texts(v: VariantSummaryView, i: int)
    ensures
        0 <= i < v.names.len() ==> variant_lines(v).contains(
            "       ["@ + v.names[i].0 + "] "@ + v.names[i].1,
        ),
        0 <= i < v.descriptions.len() && v.descriptions[i].1.len() <= 120 ==> variant_lines(
            v,
        ).contains("       ["@ + v.descriptions[i].0 + "] "@ + v.descriptions[i].1),
        0 <= i < v.descriptions.len() && v.descriptions[i].1.len() > 120 ==> variant_lines(
            v,
        ).contains(
            "       ["@ + v.descriptions[i].0 + "] "@ + (v.descriptions[i].1.take(120)
                + "\u{2026}"@),
        ),
        0 <= i < v.applications.len() ==> variant_lines(v).contains(
            "       "@ + v.applications[i],
        ),
{
    let top = seq![
        "  -- variant id="@ + v.id + "  gtin="@ + text_or(v.gtin, "(none)"@) + "  mounting="@
            + text_or(v.mountings_kind, "(none)"@),
    ];
    let a = name_lines(v.names);
    let b = description_lines(v.descriptions);
    let c = application_lines(v.applications);
    let d = marketing_lines(v);
    let e = mechanical_lines(v);
    let f = electrical_lines(v);
    assert(variant_lines(v) == top + a + b + c + d + e + f);
    assert forall|x: Seq<char>| #[trigger] (top + a + b + c + d + e + f).contains(x)
        <==> top.contains(x) || a.contains(x) || b.contains(x) || c.contains(x) || d.contains(x)
        || e.contains(x) || f.contains(x) by {
        line_in_either(top, a, x);
        line_in_either(top + a, b, x);
        line_in_either(top + a + b, c, x);
        line_in_either(top + a + b + c, d, x);
        line_in_either(top + a + b + c + d, e, x);
        line_in_either(top + a + b + c + d + e, f, x);
    }
    if 0 <= i < v.names.len() {
        assert(a[i + 1] == "       ["@ + v.names[i].0 + "] "@ + v.names[i].1);
    }
    if 0 <= i < v.descriptions.len() {
        assert(b[i + 1] == "       ["@ + v.descriptions[i].0 + "] "@ + shortened(
            v.descriptions[i].1,
        ));
    }
    if 0 <= i < v.applications.len() {
        assert(c[i + 1] == "       "@ + v.applications[i]);
    }
}

/// The mechanical and the electrical line are there exactly where they
/// say something, and name what is declared.
pub proof fn elements_are_named_where_they_say_something(v: VariantSummaryView)
    ensures
        v.ip_code is None && v.safety_class is None && v.light_distribution is None
            <==> electrical_lines(v).len() == 0,
        electrical_lines(v).len() > 0 ==> electrical_lines(v)[0] == "     electrical: ip="@
            + quoted_option(v.ip_code) + " safety_class="@ + quoted_option(v.safety_class)
            + " light_distribution="@ + quoted_option(v.light_distribution),
        v.product_form is None && v.ik_rating is None && v.adjustabilities.len() == 0
            && v.protective_areas.len() == 0 && v.weight_kg is None <==> mechanical_lines(v).len()
            == 0,
        mechanical_lines(v).len() > 0 ==> mechanical_lines(v)[0] == "     mechanical: form="@
            + quoted_option(v.product_form) + " ik="@ + quoted_option(v.ik_rating) + " adj="@
            + quoted_list(v.adjustabilities) + " areas="@ + quoted_list(v.protective_areas)
            + " weight="@ + plain_option(v.weight_kg),
        v.labels.len() > 0 ==> marketing_lines(v)[0] == "     labels:                  "@
            + quoted_list(v.labels),
        v.designer matches Some(d) ==> marketing_lines(v).last()
            == "     designer:                "@ + d,
        v.labels.len() == 0 && v.designer is None ==> marketing_lines(v).len() == 0,
{
}

} // verus!
