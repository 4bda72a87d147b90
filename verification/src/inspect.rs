//! What a product holds, summed up for a reader.

use crate::locale::{product_entries, variant_entries};
use crate::product::{
    entry_views, file_views, format_version_string, version_text, FileEntry, FileView, HeaderView,
    LocaleEntry, Mountings, Product, ProductVariant, ProductVariantView, ProductView,
};
use crate::sets::{insert_text, rising_texts};
use crate::text::{begins_with, copy_opt_text, copy_texts, has_prefix, opt_text, texts};
use vstd::prelude::*;

verus! {

// ---------------------------------------------------------------------
// Summaries
// ---------------------------------------------------------------------

/// The header in short.
#[derive(Debug)]
pub struct HeaderSummary {
    /// Manufacturer, as written.
    pub manufacturer: String,
    /// Unique id, where it is not empty.
    pub unique_gldf_id: Option<String>,
    /// Default language, where it is not empty.
    pub default_language: Option<String>,
    /// Application that wrote the file.
    pub created_with_application: String,
    /// Version of the file format.
    pub format_version: String,
}

/// The view of a [`HeaderSummary`].
pub struct HeaderSummaryView {
    /// Manufacturer.
    pub manufacturer: Seq<char>,
    /// Unique id.
    pub unique_gldf_id: Option<Seq<char>>,
    /// Default language.
    pub default_language: Option<Seq<char>>,
    /// Application that wrote the file.
    pub created_with_application: Seq<char>,
    /// Version of the file format.
    pub format_version: Seq<char>,
}

impl View for HeaderSummary {
    type V = HeaderSummaryView;

    open spec fn view(&self) -> HeaderSummaryView {
        HeaderSummaryView {
            manufacturer: self.manufacturer@,
            unique_gldf_id: opt_text(self.unique_gldf_id),
            default_language: opt_text(self.default_language),
            created_with_application: self.created_with_application@,
            format_version: self.format_version@,
        }
    }
}

/// A declared file.
#[derive(Debug)]
pub struct FileSummary {
    /// Id.
    pub id: String,
    /// Content type.
    pub content_type: String,
    /// Whether the file is embedded or remote.
    pub type_attr: String,
    /// Name or address.
    pub file_name: String,
}

impl View for FileSummary {
    type V = FileView;

    open spec fn view(&self) -> FileView {
        FileView {
            id: self.id@,
            content_type: self.content_type@,
            type_attr: self.type_attr@,
            file_name: self.file_name@,
        }
    }
}

/// The views of several declared files.
pub open spec fn summary_views(v: Seq<FileSummary>) -> Seq<FileView> {
    v.map_values(|f: FileSummary| f@)
}

/// The declared files by kind.
#[derive(Debug)]
pub struct FilesSummary {
    /// Photometric files.
    pub photometric: Vec<FileSummary>,
    /// Image files.
    pub images: Vec<FileSummary>,
    /// Geometry files.
    pub geometries: Vec<FileSummary>,
    /// Spectrum files.
    pub spectra: Vec<FileSummary>,
    /// All others.
    pub other: Vec<FileSummary>,
}

/// The view of a [`FilesSummary`].
pub struct FilesSummaryView {
    /// Photometric files.
    pub photometric: Seq<FileView>,
    /// Image files.
    pub images: Seq<FileView>,
    /// Geometry files.
    pub geometries: Seq<FileView>,
    /// Spectrum files.
    pub spectra: Seq<FileView>,
    /// All others.
    pub other: Seq<FileView>,
}

impl View for FilesSummary {
    type V = FilesSummaryView;

    open spec fn view(&self) -> FilesSummaryView {
        FilesSummaryView {
            photometric: summary_views(self.photometric@),
            images: summary_views(self.images@),
            geometries: summary_views(self.geometries@),
            spectra: summary_views(self.spectra@),
            other: summary_views(self.other@),
        }
    }
}

impl Default for FilesSummary {
    /// No files.
    fn default() -> (r: FilesSummary)
        ensures
            r@.photometric.len() == 0,
            r@.images.len() == 0,
            r@.geometries.len() == 0,
            r@.spectra.len() == 0,
            r@.other.len() == 0,
    {
        FilesSummary {
            photometric: Vec::new(),
            images: Vec::new(),
            geometries: Vec::new(),
            spectra: Vec::new(),
            other: Vec::new(),
        }
    }
}

/// The kinds of declared files.
#[derive(Clone, Copy, PartialEq, Eq, Debug, Structural)]
pub enum FileKind {
    /// Photometric file.
    Photometric,
    /// Image file.
    Image,
    /// Geometry file.
    Geometry,
    /// Spectrum file.
    Spectrum,
    /// Any other.
    Other,
}

/// The kind of a content type.
pub open spec fn kind_of(content_type: Seq<char>) -> FileKind {
    if has_prefix(content_type, "ldc/"@) {
        FileKind::Photometric
    } else if has_prefix(content_type, "image/"@) {
        FileKind::Image
    } else if has_prefix(content_type, "geo/"@) {
        FileKind::Geometry
    } else if has_prefix(content_type, "spectrum/"@) {
        FileKind::Spectrum
    } else {
        FileKind::Other
    }
}

/// Those of the first `n` files that are of a kind.
pub open spec fn of_kind(files: Seq<FileView>, kind: FileKind, n: int) -> Seq<FileView>
    decreases n,
{
    if n <= 0 {
        Seq::empty()
    } else if kind_of(files[n - 1].content_type) == kind {
        of_kind(files, kind, n - 1).push(files[n - 1])
    } else {
        of_kind(files, kind, n - 1)
    }
}

/// The declared files by kind.
pub open spec fn files_by_kind(files: Seq<FileView>, n: int) -> FilesSummaryView {
    FilesSummaryView {
        photometric: of_kind(files, FileKind::Photometric, n),
        images: of_kind(files, FileKind::Image, n),
        geometries: of_kind(files, FileKind::Geometry, n),
        spectra: of_kind(files, FileKind::Spectrum, n),
        other: of_kind(files, FileKind::Other, n),
    }
}

/// A file is listed under its kind, which the beginning of its content
/// type tells, and under no other.
pub proof fn files_are_listed_by_content_type(files: Seq<FileView>, n: int, f: FileView)
    requires
        0 <= n <= files.len(),
    ensures
        ({
            let s = files_by_kind(files, n);
            let there = files.take(n).contains(f);
            let ldc = has_prefix(f.content_type, "ldc/"@);
            let image = has_prefix(f.content_type, "image/"@);
            let geo = has_prefix(f.content_type, "geo/"@);
            let spectrum = has_prefix(f.content_type, "spectrum/"@);
            &&& s.photometric.contains(f) <==> there && ldc
            &&& s.images.contains(f) <==> there && image
            &&& s.geometries.contains(f) <==> there && geo
            &&& s.spectra.contains(f) <==> there && spectrum
            &&& s.other.contains(f) <==> there && !ldc && !image && !geo && !spectrum
        }),
{
    kinds_hold(files, FileKind::Photometric, n, f);
    kinds_hold(files, FileKind::Image, n, f);
    kinds_hold(files, FileKind::Geometry, n, f);
    kinds_hold(files, FileKind::Spectrum, n, f);
    kinds_hold(files, FileKind::Other, n, f);
    reveal_strlit("ldc/");
    reveal_strlit("image/");
    reveal_strlit("geo/");
    reveal_strlit("spectrum/");
    let c = f.content_type;
    if has_prefix(c, "ldc/"@) {
        assert(c.subrange(0, 4)[0] == 'l');
    }
    if has_prefix(c, "image/"@) {
        assert(c.subrange(0, 6)[0] == 'i');
    }
    if has_prefix(c, "geo/"@) {
        assert(c.subrange(0, 4)[0] == 'g');
    }
    if has_prefix(c, "spectrum/"@) {
        assert(c.subrange(0, 9)[0] == 's');
    }
}

proof fn kinds_hold(files: Seq<FileView>, kind: FileKind, n: int, f: FileView)
    requires
        0 <= n <= files.len(),
    ensures
        of_kind(files, kind, n).contains(f) <==> files.take(n).contains(f) && kind_of(
            f.content_type,
        ) == kind,
    decreases n,
{
    if n > 0 {
        kinds_hold(files, kind, n - 1, f);
        let front = of_kind(files, kind, n - 1);
        let all = of_kind(files, kind, n);
        let had = files.take(n - 1);
        let now = files.take(n);
        if had.contains(f) {
            let k = choose|k: int| 0 <= k < had.len() && had[k] == f;
            assert(now[k] == f);
        }
        if files[n - 1] == f {
            assert(now[n - 1] == f);
        }
        if now.contains(f) && files[n - 1] != f {
            let k = choose|k: int| 0 <= k < now.len() && now[k] == f;
            assert(had[k] == f);
        }
        if front.contains(f) {
            let k = choose|k: int| 0 <= k < front.len() && front[k] == f;
            assert(all[k] == f);
        }
        if kind_of(files[n - 1].content_type) == kind && files[n - 1] == f {
            assert(all[front.len() as int] == f);
        }
        if all.contains(f) && !front.contains(f) {
            let k = choose|k: int| 0 <= k < all.len() && all[k] == f;
            if k < front.len() {
                assert(front[k] == f);
            }
        }
    }
}

/// Every declared file is listed once.
pub proof fn files_are_listed_once(files: Seq<FileView>, n: int)
    requires
        0 <= n <= files.len(),
    ensures
        ({
            let s = files_by_kind(files, n);
            s.photometric.len() + s.images.len() + s.geometries.len() + s.spectra.len()
                + s.other.len() == n
        }),
    decreases n,
{
    if n > 0 {
        files_are_listed_once(files, n - 1);
    }
}

/// What the marketing element of a variant says.
#[derive(Debug)]
pub struct VariantMarketing {
    /// Applications.
    pub applications: Vec<String>,
    /// Labels.
    pub labels: Vec<String>,
    /// Designer.
    pub designer: Option<String>,
}

/// What the mechanical element of a variant says.
#[derive(Debug)]
pub struct VariantMechanical {
    /// Product form.
    pub product_form: Option<String>,
    /// IK rating.
    pub ik_rating: Option<String>,
    /// Adjustabilities.
    pub adjustabilities: Vec<String>,
    /// Protective areas.
    pub protective_areas: Vec<String>,
    /// Weight (kg), in figures.
    pub weight_kg: Option<String>,
}

/// What the electrical element of a variant says.
#[derive(Debug)]
pub struct VariantElectrical {
    /// IP code.
    pub ip_code: Option<String>,
    /// Safety class.
    pub safety_class: Option<String>,
    /// Light distribution.
    pub light_distribution: Option<String>,
}

/// One variant in short.
#[derive(Debug)]
pub struct VariantSummary {
    /// Id.
    pub id: String,
    /// Names with their languages.
    pub name_per_locale: Vec<(String, String)>,
    /// Descriptions with their languages.
    pub description_per_locale: Vec<(String, String)>,
    /// Global trade item number.
    pub gtin: Option<String>,
    /// The surface that the mountings element names first.
    pub mountings_kind: Option<&'static str>,
    /// What the marketing element says.
    pub marketing: VariantMarketing,
    /// What the mechanical element says.
    pub mechanical: VariantMechanical,
    /// What the electrical element says.
    pub electrical: VariantElectrical,
}

/// The views of texts with their languages.
pub open spec fn pair_views(v: Seq<(String, String)>) -> Seq<(Seq<char>, Seq<char>)> {
    v.map_values(|e: (String, String)| (e.0@, e.1@))
}

/// The view of a [`VariantSummary`].
pub struct VariantSummaryView {
    /// Id.
    pub id: Seq<char>,
    /// Names with their languages.
    pub names: Seq<(Seq<char>, Seq<char>)>,
    /// Descriptions with their languages.
    pub descriptions: Seq<(Seq<char>, Seq<char>)>,
    /// Global trade item number.
    pub gtin: Option<Seq<char>>,
    /// The surface.
    pub mountings_kind: Option<Seq<char>>,
    /// Applications.
    pub applications: Seq<Seq<char>>,
    /// Labels.
    pub labels: Seq<Seq<char>>,
    /// Designer.
    pub designer: Option<Seq<char>>,
    /// Product form.
    pub product_form: Option<Seq<char>>,
    /// IK rating.
    pub ik_rating: Option<Seq<char>>,
    /// Adjustabilities.
    pub adjustabilities: Seq<Seq<char>>,
    /// Protective areas.
    pub protective_areas: Seq<Seq<char>>,
    /// Weight.
    pub weight_kg: Option<Seq<char>>,
    /// IP code.
    pub ip_code: Option<Seq<char>>,
    /// Safety class.
    pub safety_class: Option<Seq<char>>,
    /// Light distribution.
    pub light_distribution: Option<Seq<char>>,
}

impl View for VariantSummary {
    type V = VariantSummaryView;

    open spec fn view(&self) -> VariantSummaryView {
        VariantSummaryView {
            id: self.id@,
            names: pair_views(self.name_per_locale@),
            descriptions: pair_views(self.description_per_locale@),
            gtin: opt_text(self.gtin),
            mountings_kind: match self.mountings_kind {
                Some(s) => Some(s@),
                None => None,
            },
            applications: texts(self.marketing.applications@),
            labels: texts(self.marketing.labels@),
            designer: opt_text(self.marketing.designer),
            product_form: opt_text(self.mechanical.product_form),
            ik_rating: opt_text(self.mechanical.ik_rating),
            adjustabilities: texts(self.mechanical.adjustabilities@),
            protective_areas: texts(self.mechanical.protective_areas@),
            weight_kg: opt_text(self.mechanical.weight_kg),
            ip_code: opt_text(self.electrical.ip_code),
            safety_class: opt_text(self.electrical.safety_class),
            light_distribution: opt_text(self.electrical.light_distribution),
        }
    }
}

/// The views of several variants in short.
pub open spec fn variant_summary_views(v: Seq<VariantSummary>) -> Seq<VariantSummaryView> {
    v.map_values(|s: VariantSummary| s@)
}

/// The surface that mountings name first.
pub open spec fn surface_named(m: Option<Mountings>) -> Option<Seq<char>> {
    match m {
        None => None,
        Some(m) => Some(
            if m.ceiling is Some {
                "Ceiling"@
            } else if m.wall is Some {
                "Wall"@
            } else if m.working_plane is Some {
                "WorkingPlane"@
            } else if m.ground is Some {
                "Ground"@
            } else {
                "Empty"@
            },
        ),
    }
}

/// A variant in short.
pub open spec fn summary_of(v: ProductVariantView) -> VariantSummaryView {
    VariantSummaryView {
        id: v.id,
        names: v.name,
        descriptions: v.description,
        gtin: v.gtin,
        mountings_kind: surface_named(v.mountings),
        applications: v.applications,
        labels: v.labels,
        designer: v.designer,
        product_form: v.product_form,
        ik_rating: v.ik_rating,
        adjustabilities: v.adjustabilities,
        protective_areas: v.protective_areas,
        weight_kg: v.weight_kg,
        ip_code: v.ip_code,
        safety_class: v.safety_class,
        light_distribution: v.light_distribution,
    }
}

/// A text, where it is not empty.
pub open spec fn unless_empty(s: Option<Seq<char>>) -> Option<Seq<char>> {
    match s {
        Some(t) => if t.len() > 0 {
            Some(t)
        } else {
            None
        },
        None => None,
    }
}

/// A header in short.
pub open spec fn header_in_short(h: HeaderView) -> HeaderSummaryView {
    HeaderSummaryView {
        manufacturer: h.manufacturer,
        unique_gldf_id: unless_empty(h.unique_gldf_id),
        default_language: unless_empty(h.default_language),
        created_with_application: h.created_with_application,
        format_version: version_text(h.format_version),
    }
}

/// Whether some entry is in the language `x`.
pub open spec fn language_among(entries: Seq<(Seq<char>, Seq<char>)>, x: Seq<char>) -> bool {
    exists|i: int| 0 <= i < entries.len() && (#[trigger] entries[i]).0 == x
}

/// Whether a product mentions the language `x`: as its default, or as
/// that of a text.
pub open spec fn mentions_language(p: ProductView, x: Seq<char>) -> bool {
    x.len() > 0 && (p.header.default_language == Some(x) || language_among(product_entries(p), x))
}

/// What is reported of a product.
#[derive(Debug)]
pub struct Report {
    /// Path of the file.
    pub path: String,
    /// Header.
    pub header: HeaderSummary,
    /// Declared files.
    pub files: FilesSummary,
    /// Variants.
    pub variants: Vec<VariantSummary>,
    /// Language codes, in order, each once.
    pub locales: Vec<String>,
}

/// The view of a [`Report`].
pub struct ReportView {
    /// Path of the file.
    pub path: Seq<char>,
    /// Header.
    pub header: HeaderSummaryView,
    /// Declared files.
    pub files: FilesSummaryView,
    /// Variants.
    pub variants: Seq<VariantSummaryView>,
    /// Language codes.
    pub locales: Seq<Seq<char>>,
}

impl View for Report {
    type V = ReportView;

    open spec fn view(&self) -> ReportView {
        ReportView {
            path: self.path@,
            header: self.header@,
            files: self.files@,
            variants: variant_summary_views(self.variants@),
            locales: texts(self.locales@),
        }
    }
}

/// Whether `r` is the report of a product.
pub open spec fn is_report(p: ProductView, path: Seq<char>, r: ReportView) -> bool {
    &&& r.path == path
    &&& r.header == header_in_short(p.header)
    &&& r.files == files_by_kind(p.files, p.files.len() as int)
    &&& r.variants == Seq::new(p.variants.len(), |i: int| summary_of(p.variants[i]))
    &&& rising_texts(r.locales)
    &&& forall|x: Seq<char>| #[trigger] r.locales.contains(x) <==> mentions_language(p, x)
}

// ---------------------------------------------------------------------
// Building a report
// ---------------------------------------------------------------------

/// A text, where it is not empty.
fn if_not_empty(o: &Option<String>) -> (r: Option<String>)
    ensures
        opt_text(r) == unless_empty(opt_text(*o)),
{
    match o {
        Some(s) => {
            if s.as_str().is_empty() {
                None
            } else {
                Some(s.clone())
            }
        },
        None => None,
    }
}

/// A header in short.
pub fn header_summary(p: &Product) -> (r: HeaderSummary)
    ensures
        r@ == header_in_short(p@.header),
{
    HeaderSummary {
        manufacturer: p.header.manufacturer.clone(),
        unique_gldf_id: if_not_empty(&p.header.unique_gldf_id),
        default_language: if_not_empty(&p.header.default_language),
        created_with_application: p.header.created_with_application.clone(),
        format_version: format_version_string(p.header.format_version),
    }
}

/// Adds a file to a list.
fn add_file(list: &mut Vec<FileSummary>, f: &FileEntry)
    ensures
        summary_views(final(list)@) == summary_views(old(list)@).push(f@),
{
    let ghost before = summary_views(list@);
    list.push(
        FileSummary {
            id: f.id.clone(),
            content_type: f.content_type.clone(),
            type_attr: f.type_attr.clone(),
            file_name: f.file_name.clone(),
        },
    );
    proof {
        assert(summary_views(list@) =~= before.push(f@));
    }
}

/// The kind of a content type.
pub fn file_kind(content_type: &str) -> (r: FileKind)
    ensures
        r == kind_of(content_type@),
{
    if begins_with(content_type, "ldc/") {
        FileKind::Photometric
    } else if begins_with(content_type, "image/") {
        FileKind::Image
    } else if begins_with(content_type, "geo/") {
        FileKind::Geometry
    } else if begins_with(content_type, "spectrum/") {
        FileKind::Spectrum
    } else {
        FileKind::Other
    }
}

/// The declared files by kind.
pub fn files_summary(p: &Product) -> (r: FilesSummary)
    ensures
        r@ == files_by_kind(p@.files, p@.files.len() as int),
{
    let mut r: FilesSummary = FilesSummary::default();
    let ghost files = p@.files;
    let mut i: usize = 0;
    proof {
        assert(r@.photometric =~= Seq::empty());
        assert(r@.images =~= Seq::empty());
        assert(r@.geometries =~= Seq::empty());
        assert(r@.spectra =~= Seq::empty());
        assert(r@.other =~= Seq::empty());
    }
    while i < p.files.len()
        invariant
            i <= p.files@.len(),
            files == file_views(p.files@),
            r@ == files_by_kind(files, i as int),
        decreases p.files@.len() - i,
    {
        proof {
            assert(files[i as int] == p.files@[i as int]@);
        }
        match file_kind(p.files[i].content_type.as_str()) {
            FileKind::Photometric => add_file(&mut r.photometric, &p.files[i]),
            FileKind::Image => add_file(&mut r.images, &p.files[i]),
            FileKind::Geometry => add_file(&mut r.geometries, &p.files[i]),
            FileKind::Spectrum => add_file(&mut r.spectra, &p.files[i]),
            FileKind::Other => add_file(&mut r.other, &p.files[i]),
        }
        i += 1;
    }
    r
}

/// Texts with their languages.
fn copy_pairs(bag: &Vec<LocaleEntry>) -> (r: Vec<(String, String)>)
    ensures
        pair_views(r@) == entry_views(bag@),
{
    let mut r: Vec<(String, String)> = Vec::new();
    let mut i: usize = 0;
    while i < bag.len()
        invariant
            i <= bag@.len(),
            r@.len() == i,
            forall|k: int|
                0 <= k < i ==> (#[trigger] r@[k]).0@ == bag@[k].language@ && r@[k].1@
                    == bag@[k].value@,
        decreases bag@.len() - i,
    {
        r.push((bag[i].language.clone(), bag[i].value.clone()));
        i += 1;
    }
    proof {
        assert(pair_views(r@) =~= entry_views(bag@));
    }
    r
}

/// A variant in short.
pub fn variant_summary(v: &ProductVariant) -> (r: VariantSummary)
    ensures
        r@ == summary_of(v@),
{
    let mountings_kind: Option<&'static str> = match &v.mountings {
        Some(m) => Some(
            if m.ceiling.is_some() {
                "Ceiling"
            } else if m.wall.is_some() {
                "Wall"
            } else if m.working_plane.is_some() {
                "WorkingPlane"
            } else if m.ground.is_some() {
                "Ground"
            } else {
                "Empty"
            },
        ),
        None => None,
    };
    VariantSummary {
        id: v.id.clone(),
        name_per_locale: copy_pairs(&v.name),
        description_per_locale: copy_pairs(&v.description),
        gtin: copy_opt_text(&v.gtin),
        mountings_kind,
        marketing: VariantMarketing {
            applications: copy_texts(&v.applications),
            labels: copy_texts(&v.labels),
            designer: copy_opt_text(&v.designer),
        },
        mechanical: VariantMechanical {
            product_form: copy_opt_text(&v.product_form),
            ik_rating: copy_opt_text(&v.ik_rating),
            adjustabilities: copy_texts(&v.adjustabilities),
            protective_areas: copy_texts(&v.protective_areas),
            weight_kg: copy_opt_text(&v.weight_kg),
        },
        electrical: VariantElectrical {
            ip_code: copy_opt_text(&v.ip_code),
            safety_class: copy_opt_text(&v.safety_class),
            light_distribution: copy_opt_text(&v.light_distribution),
        },
    }
}

/// Adds the languages of a list of texts.
pub fn record_locale_foo(bag: &Vec<LocaleEntry>, locales: &mut Vec<String>)
    requires
        rising_texts(texts(old(locales)@)),
    ensures
        rising_texts(texts(final(locales)@)),
        forall|x: Seq<char>|
            #[trigger] texts(final(locales)@).contains(x) <==> (texts(old(locales)@).contains(x)
                || (x.len() > 0 && language_among(entry_views(bag@), x))),
{
    let ghost before = texts(locales@);
    let ghost views = entry_views(bag@);
    let mut i: usize = 0;
    while i < bag.len()
        invariant
            i <= bag@.len(),
            views == entry_views(bag@),
            rising_texts(texts(locales@)),
            forall|x: Seq<char>|
                #[trigger] texts(locales@).contains(x) <==> (before.contains(x) || (x.len() > 0
                    && language_among(views.take(i as int), x))),
        decreases bag@.len() - i,
    {
        let ghost mid = texts(locales@);
        proof {
            assert(views[i as int] == bag@[i as int]@);
        }
        if !bag[i].language.as_str().is_empty() {
            insert_text(locales, bag[i].language.as_str());
        }
        proof {
            assert forall|x: Seq<char>| #[trigger] texts(locales@).contains(x) <==> (
            before.contains(x) || (x.len() > 0 && language_among(views.take(i + 1), x))) by {
                assert(mid.contains(x) <==> (before.contains(x) || (x.len() > 0
                    && language_among(views.take(i as int), x))));
                next_language(views, i as int, x);
            }
        }
        i += 1;
    }
    proof {
        assert(views.take(views.len() as int) =~= views);
    }
}

proof fn next_language(s: Seq<(Seq<char>, Seq<char>)>, i: int, x: Seq<char>)
    requires
        0 <= i < s.len(),
    ensures
        language_among(s.take(i + 1), x) <==> (language_among(s.take(i), x) || s[i].0 == x),
{
    let a = s.take(i + 1);
    let b = s.take(i);
    if language_among(a, x) {
        let k = choose|k: int| 0 <= k < a.len() && (#[trigger] a[k]).0 == x;
        if k < i {
            assert(b[k].0 == x);
        }
    }
    if language_among(b, x) {
        let k = choose|k: int| 0 <= k < b.len() && (#[trigger] b[k]).0 == x;
        assert(a[k].0 == x);
    }
    if s[i].0 == x {
        assert(a[i].0 == x);
    }
}

proof fn joined_languages(
    a: Seq<(Seq<char>, Seq<char>)>,
    b: Seq<(Seq<char>, Seq<char>)>,
    x: Seq<char>,
)
    ensures
        language_among(a + b, x) <==> (language_among(a, x) || language_among(b, x)),
{
    let s = a + b;
    if language_among(s, x) {
        let k = choose|k: int| 0 <= k < s.len() && (#[trigger] s[k]).0 == x;
        if k < a.len() {
            assert(a[k].0 == x);
        } else {
            assert(b[k - a.len()].0 == x);
        }
    }
    if language_among(a, x) {
        let k = choose|k: int| 0 <= k < a.len() && (#[trigger] a[k]).0 == x;
        assert(s[k].0 == x);
    }
    if language_among(b, x) {
        let k = choose|k: int| 0 <= k < b.len() && (#[trigger] b[k]).0 == x;
        assert(s[k + a.len()].0 == x);
    }
}

/// Adds the languages of a list of texts to those of earlier ones.
fn record_more(
    bag: &Vec<LocaleEntry>,
    locales: &mut Vec<String>,
    head: Ghost<Option<Seq<char>>>,
    done: Ghost<Seq<(Seq<char>, Seq<char>)>>,
)
    requires
        rising_texts(texts(old(locales)@)),
        forall|x: Seq<char>|
            #[trigger] texts(old(locales)@).contains(x) <==> (x.len() > 0 && (head@ == Some(x)
                || language_among(done@, x))),
    ensures
        rising_texts(texts(final(locales)@)),
        forall|x: Seq<char>|
            #[trigger] texts(final(locales)@).contains(x) <==> (x.len() > 0 && (head@ == Some(x)
                || language_among(done@ + entry_views(bag@), x))),
{
    let ghost before = texts(locales@);
    record_locale_foo(bag, locales);
    proof {
        assert forall|x: Seq<char>| #[trigger] texts(locales@).contains(x) <==> (x.len() > 0 && (
        head@ == Some(x) || language_among(done@ + entry_views(bag@), x))) by {
            assert(before.contains(x) <==> (x.len() > 0 && (head@ == Some(x) || language_among(
                done@,
                x,
            ))));
            joined_languages(done@, entry_views(bag@), x);
        }
    }
}

/// The languages that a product mentions.
fn languages(p: &Product) -> (locales: Vec<String>)
    ensures
        rising_texts(texts(locales@)),
        forall|x: Seq<char>|
            #[trigger] texts(locales@).contains(x) <==> mentions_language(p@, x),
{
    let mut locales: Vec<String> = Vec::new();
    let ghost v = p@;
    let ghost head = v.header.default_language;
    proof {
        assert(texts(locales@) =~= Seq::empty());
        assert(Seq::<(Seq<char>, Seq<char>)>::empty() + v.name =~= v.name);
    }
    match &p.header.default_language {
        Some(s) => {
            if !s.as_str().is_empty() {
                insert_text(&mut locales, s.as_str());
            }
        },
        None => {},
    }
    record_more(&p.name, &mut locales, Ghost(head), Ghost(Seq::empty()));
    record_more(&p.description, &mut locales, Ghost(head), Ghost(v.name));
    record_more(&p.tender_text, &mut locales, Ghost(head), Ghost(v.name + v.description));
    record_more(
        &p.product_number,
        &mut locales,
        Ghost(head),
        Ghost(v.name + v.description + v.tender_text),
    );
    let ghost own = v.name + v.description + v.tender_text + v.product_number;
    let mut i: usize = 0;
    proof {
        assert(own + variant_entries(v.variants, 0) =~= own);
    }
    while i < p.variants.len()
        invariant
            i <= p.variants@.len(),
            v == p@,
            rising_texts(texts(locales@)),
            forall|x: Seq<char>|
                #[trigger] texts(locales@).contains(x) <==> (x.len() > 0 && (head == Some(x)
                    || language_among(own + variant_entries(v.variants, i as int), x))),
        decreases p.variants@.len() - i,
    {
        let ghost d = own + variant_entries(v.variants, i as int);
        let ghost w = v.variants[i as int];
        proof {
            assert(w == p.variants@[i as int]@);
        }
        record_more(&p.variants[i].name, &mut locales, Ghost(head), Ghost(d));
        record_more(&p.variants[i].description, &mut locales, Ghost(head), Ghost(d + w.name));
        record_more(
            &p.variants[i].product_number,
            &mut locales,
            Ghost(head),
            Ghost(d + w.name + w.description),
        );
        record_more(
            &p.variants[i].tender_text,
            &mut locales,
            Ghost(head),
            Ghost(d + w.name + w.description + w.product_number),
        );
        proof {
            assert(d + w.name + w.description + w.product_number + w.tender_text =~= own
                + variant_entries(v.variants, i + 1));
        }
        i += 1;
    }
    locales
}

/// The report of a product.
pub fn report(p: &Product, path: String) -> (r: Report)
    ensures
        is_report(p@, path@, r@),
{
    let mut variants: Vec<VariantSummary> = Vec::new();
    let ghost v = p@;
    let mut i: usize = 0;
    while i < p.variants.len()
        invariant
            i <= p.variants@.len(),
            v == p@,
            variants@.len() == i,
            forall|k: int|
                0 <= k < i ==> (#[trigger] variants@[k])@ == summary_of(v.variants[k]),
        decreases p.variants@.len() - i,
    {
        proof {
            assert(v.variants[i as int] == p.variants@[i as int]@);
        }
        variants.push(variant_summary(&p.variants[i]));
        i += 1;
    }
    proof {
        assert(variant_summary_views(variants@) =~= Seq::new(
            v.variants.len(),
            |k: int| summary_of(v.variants[k]),
        ));
    }
    Report {
        path,
        header: header_summary(p),
        files: files_summary(p),
        variants,
        locales: languages(p),
    }
}

/// A report names the product as its header does, but for what is empty,
/// and has its variants in their order, each with what it declares.
pub proof fn reports_tell_what_is_declared(p: ProductView, path: Seq<char>, r: ReportView, i: int)
    requires
        is_report(p, path, r),
        0 <= i < p.variants.len(),
    ensures
        r.path == path,
        r.header.manufacturer == p.header.manufacturer,
        r.header.created_with_application == p.header.created_with_application,
        r.header.format_version == version_text(p.header.format_version),
        p.header.unique_gldf_id matches Some(s) ==> (s.len() > 0 ==> r.header.unique_gldf_id == Some(
            s,
        )) && (s.len() == 0 ==> r.header.unique_gldf_id is None),
        p.header.unique_gldf_id is None ==> r.header.unique_gldf_id is None,
        p.header.default_language matches Some(s) ==> (s.len() > 0 ==> r.header.default_language
            == Some(s)) && (s.len() == 0 ==> r.header.default_language is None),
        r.variants.len() == p.variants.len(),
        r.variants[i].id == p.variants[i].id,
        r.variants[i].names == p.variants[i].name,
        r.variants[i].descriptions == p.variants[i].description,
        r.variants[i].gtin == p.variants[i].gtin,
        r.variants[i].applications == p.variants[i].applications,
        r.variants[i].labels == p.variants[i].labels,
        r.variants[i].designer == p.variants[i].designer,
        r.variants[i].product_form == p.variants[i].product_form,
        r.variants[i].ik_rating == p.variants[i].ik_rating,
        r.variants[i].adjustabilities == p.variants[i].adjustabilities,
        r.variants[i].protective_areas == p.variants[i].protective_areas,
        r.variants[i].weight_kg == p.variants[i].weight_kg,
        r.variants[i].ip_code == p.variants[i].ip_code,
        r.variants[i].safety_class == p.variants[i].safety_class,
        r.variants[i].light_distribution == p.variants[i].light_distribution,
        r.variants[i].mountings_kind is None <==> p.variants[i].mountings is None,
        p.variants[i].mountings matches Some(m) ==> {
            let kind = r.variants[i].mountings_kind->0;
            &&& m.ceiling is Some ==> kind == "Ceiling"@
            &&& m.ceiling is None && m.wall is Some ==> kind == "Wall"@
            &&& m.ceiling is None && m.wall is None && m.working_plane is Some ==> kind
                == "WorkingPlane"@
            &&& m.ceiling is None && m.wall is None && m.working_plane is None && m.ground is Some
                ==> kind == "Ground"@
        },
{
}

/// A report lists a language exactly if it is the default one or that of
/// a text of the product.
pub proof fn reports_list_languages(p: ProductView, path: Seq<char>, r: ReportView, x: Seq<char>)
    requires
        is_report(p, path, r),
        x.len() > 0,
    ensures
        r.locales.contains(x) <==> p.header.default_language == Some(x) || exists|v: Seq<char>|
            #[trigger] crate::locale::is_text_of(p, (x, v)),
{
    let entries = product_entries(p);
    assert(r.locales.contains(x) <==> mentions_language(p, x));
    if language_among(entries, x) {
        let i = choose|i: int| 0 <= i < entries.len() && (#[trigger] entries[i]).0 == x;
        crate::locale::entries_are_texts(p, entries[i]);
        assert(entries[i] == (x, entries[i].1));
        assert(crate::locale::is_text_of(p, (x, entries[i].1)));
    }
    if exists|v: Seq<char>| #[trigger] crate::locale::is_text_of(p, (x, v)) {
        let v = choose|v: Seq<char>| #[trigger] crate::locale::is_text_of(p, (x, v));
        crate::locale::entries_are_texts(p, (x, v));
        let i = choose|i: int| 0 <= i < entries.len() && entries[i] == (x, v);
        assert(entries[i].0 == x);
    }
}

} // verus!
