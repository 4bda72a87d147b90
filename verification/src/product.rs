//! What the library reads of one GLDF product.

use crate::text::{begins_with, has_prefix, opt_text, texts};
use vstd::prelude::*;

verus! {

/// A text in one language.
#[derive(Debug)]
pub struct LocaleEntry {
    /// Language code, as written.
    pub language: String,
    /// The text.
    pub value: String,
}

impl View for LocaleEntry {
    type V = (Seq<char>, Seq<char>);

    open spec fn view(&self) -> (Seq<char>, Seq<char>) {
        (self.language@, self.value@)
    }
}

/// The views of texts in several languages.
pub open spec fn entry_views(v: Seq<LocaleEntry>) -> Seq<(Seq<char>, Seq<char>)> {
    v.map_values(|e: LocaleEntry| e@)
}

/// Version of the file format.
#[derive(Clone, Copy, PartialEq, Eq, Debug, Structural)]
pub struct FormatVersion {
    /// Major number.
    pub major: i32,
    /// Minor number.
    pub minor: i32,
    /// Number of the release candidate.
    pub pre_release: Option<i32>,
}

/// The header of a file.
#[derive(Debug)]
pub struct Header {
    /// Manufacturer, as written.
    pub manufacturer: String,
    /// Unique id of the file.
    pub unique_gldf_id: Option<String>,
    /// Default language.
    pub default_language: Option<String>,
    /// Application that wrote the file.
    pub created_with_application: String,
    /// Version of the file format.
    pub format_version: FormatVersion,
}

/// The view of a [`Header`].
pub struct HeaderView {
    /// Manufacturer.
    pub manufacturer: Seq<char>,
    /// Unique id of the file.
    pub unique_gldf_id: Option<Seq<char>>,
    /// Default language.
    pub default_language: Option<Seq<char>>,
    /// Application that wrote the file.
    pub created_with_application: Seq<char>,
    /// Version of the file format.
    pub format_version: FormatVersion,
}

impl View for Header {
    type V = HeaderView;

    open spec fn view(&self) -> HeaderView {
        HeaderView {
            manufacturer: self.manufacturer@,
            unique_gldf_id: opt_text(self.unique_gldf_id),
            default_language: opt_text(self.default_language),
            created_with_application: self.created_with_application@,
            format_version: self.format_version,
        }
    }
}

/// A file that the product declares.
#[derive(Debug)]
pub struct FileEntry {
    /// Id by which other elements name the file.
    pub id: String,
    /// Content type.
    pub content_type: String,
    /// Whether the file is embedded or remote.
    pub type_attr: String,
    /// Name or address.
    pub file_name: String,
}

/// The view of a [`FileEntry`].
pub struct FileView {
    /// Id.
    pub id: Seq<char>,
    /// Content type.
    pub content_type: Seq<char>,
    /// Whether the file is embedded or remote.
    pub type_attr: Seq<char>,
    /// Name or address.
    pub file_name: Seq<char>,
}

impl View for FileEntry {
    type V = FileView;

    open spec fn view(&self) -> FileView {
        FileView {
            id: self.id@,
            content_type: self.content_type@,
            type_attr: self.type_attr@,
            file_name: self.file_name@,
        }
    }
}

/// The views of several files.
pub open spec fn file_views(v: Seq<FileEntry>) -> Seq<FileView> {
    v.map_values(|f: FileEntry| f@)
}

/// Mountings on or in a ceiling.
#[derive(Clone, Copy, PartialEq, Eq, Debug, Structural)]
pub struct CeilingMounting {
    /// Depth of the recess (mm), where the luminaire is set in.
    pub recessed: Option<i32>,
    /// Whether it is fixed onto the surface.
    pub surface_mounted: bool,
    /// Whether it hangs.
    pub pendant: bool,
}

/// Mountings on or in a wall.
#[derive(Clone, Copy, PartialEq, Eq, Debug, Structural)]
pub struct WallMounting {
    /// Depth of the recess (mm), where the luminaire is set in.
    pub recessed: Option<i32>,
    /// Whether it is fixed onto the surface.
    pub surface_mounted: bool,
}

/// Mountings on the working plane.
#[derive(Clone, Copy, PartialEq, Eq, Debug, Structural)]
pub struct WorkingPlaneMounting {
    /// Whether it stands freely.
    pub free_standing: bool,
}

/// Mountings on or in the ground.
#[derive(Clone, Copy, PartialEq, Eq, Debug, Structural)]
pub struct GroundMounting {
    /// Depth of the recess (mm), where the luminaire is set in.
    pub recessed: Option<i32>,
    /// Whether it stands on top of a pole.
    pub pole_top: bool,
    /// Whether it is part of a pole.
    pub pole_integrated: bool,
    /// Whether it stands freely.
    pub free_standing: bool,
    /// Whether it is fixed onto the surface.
    pub surface_mounted: bool,
}

/// The mountings that a variant declares.
#[derive(Clone, Copy, PartialEq, Eq, Debug, Structural)]
pub struct Mountings {
    /// On or in a ceiling.
    pub ceiling: Option<CeilingMounting>,
    /// On or in a wall.
    pub wall: Option<WallMounting>,
    /// On the working plane.
    pub working_plane: Option<WorkingPlaneMounting>,
    /// On or in the ground.
    pub ground: Option<GroundMounting>,
}

/// One variant of a product.
#[derive(Debug)]
pub struct ProductVariant {
    /// Id.
    pub id: String,
    /// Name by language.
    pub name: Vec<LocaleEntry>,
    /// Description by language.
    pub description: Vec<LocaleEntry>,
    /// Product number by language.
    pub product_number: Vec<LocaleEntry>,
    /// Tender text by language.
    pub tender_text: Vec<LocaleEntry>,
    /// Global trade item number.
    pub gtin: Option<String>,
    /// Mountings, where the element is there.
    pub mountings: Option<Mountings>,
    /// Whether a 3D model is referenced.
    pub model_geometry: bool,
    /// Applications, as written.
    pub applications: Vec<String>,
    /// Labels, as written.
    pub labels: Vec<String>,
    /// Designer.
    pub designer: Option<String>,
    /// Product form, as written.
    pub product_form: Option<String>,
    /// IK rating, as written.
    pub ik_rating: Option<String>,
    /// Adjustabilities, as written.
    pub adjustabilities: Vec<String>,
    /// Protective areas, as written.
    pub protective_areas: Vec<String>,
    /// Weight (kg), in figures.
    pub weight_kg: Option<String>,
    /// IP code, as written.
    pub ip_code: Option<String>,
    /// Electrical safety class, as written.
    pub safety_class: Option<String>,
    /// Light distribution, as written.
    pub light_distribution: Option<String>,
    /// Whether there is an emergency lighting element.
    pub has_emergency: bool,
    /// Dedicated emergency lighting type, as written.
    pub emergency_lighting_type: Option<String>,
}

/// The view of a [`ProductVariant`].
pub struct ProductVariantView {
    /// Id.
    pub id: Seq<char>,
    /// Name by language.
    pub name: Seq<(Seq<char>, Seq<char>)>,
    /// Description by language.
    pub description: Seq<(Seq<char>, Seq<char>)>,
    /// Product number by language.
    pub product_number: Seq<(Seq<char>, Seq<char>)>,
    /// Tender text by language.
    pub tender_text: Seq<(Seq<char>, Seq<char>)>,
    /// Global trade item number.
    pub gtin: Option<Seq<char>>,
    /// Mountings.
    pub mountings: Option<Mountings>,
    /// Whether a 3D model is referenced.
    pub model_geometry: bool,
    /// Applications.
    pub applications: Seq<Seq<char>>,
    /// Labels.
    pub labels: Seq<Seq<char>>,
    /// Designer.
    pub designer: Option<Seq<char>>,
    /// Product form.
    pub product_form: Option<Seq<char>>,
    /// IK rating.
    pub ik_rating: Option<Seq<char>>,
    /// Adjustabilities.
    pub adjustabilities: Seq<Seq<char>>,
    /// Protective areas.
    pub protective_areas: Seq<Seq<char>>,
    /// Weight (kg).
    pub weight_kg: Option<Seq<char>>,
    /// IP code.
    pub ip_code: Option<Seq<char>>,
    /// Electrical safety class.
    pub safety_class: Option<Seq<char>>,
    /// Light distribution.
    pub light_distribution: Option<Seq<char>>,
    /// Whether there is an emergency lighting element.
    pub has_emergency: bool,
    /// Dedicated emergency lighting type.
    pub emergency_lighting_type: Option<Seq<char>>,
}

impl View for ProductVariant {
    type V = ProductVariantView;

    open spec fn view(&self) -> ProductVariantView {
        ProductVariantView {
            id: self.id@,
            name: entry_views(self.name@),
            description: entry_views(self.description@),
            product_number: entry_views(self.product_number@),
            tender_text: entry_views(self.tender_text@),
            gtin: opt_text(self.gtin),
            mountings: self.mountings,
            model_geometry: self.model_geometry,
            applications: texts(self.applications@),
            labels: texts(self.labels@),
            designer: opt_text(self.designer),
            product_form: opt_text(self.product_form),
            ik_rating: opt_text(self.ik_rating),
            adjustabilities: texts(self.adjustabilities@),
            protective_areas: texts(self.protective_areas@),
            weight_kg: opt_text(self.weight_kg),
            ip_code: opt_text(self.ip_code),
            safety_class: opt_text(self.safety_class),
            light_distribution: opt_text(self.light_distribution),
            has_emergency: self.has_emergency,
            emergency_lighting_type: opt_text(self.emergency_lighting_type),
        }
    }
}

/// The views of several variants.
pub open spec fn product_variant_views(v: Seq<ProductVariant>) -> Seq<ProductVariantView> {
    v.map_values(|p: ProductVariant| p@)
}

/// One product.
#[derive(Debug)]
pub struct Product {
    /// Header.
    pub header: Header,
    /// Declared files.
    pub files: Vec<FileEntry>,
    /// Lamp types of the changeable light sources that declare one, as
    /// written.
    pub changeable_lamp_types: Vec<String>,
    /// Lamp types of the fixed light sources that declare one, as
    /// written.
    pub fixed_lamp_types: Vec<String>,
    /// Interfaces of the control gears, as written, gear after gear.
    pub control_gear_interfaces: Vec<String>,
    /// Name by language.
    pub name: Vec<LocaleEntry>,
    /// Description by language.
    pub description: Vec<LocaleEntry>,
    /// Tender text by language.
    pub tender_text: Vec<LocaleEntry>,
    /// Product number by language.
    pub product_number: Vec<LocaleEntry>,
    /// Variants.
    pub variants: Vec<ProductVariant>,
}

/// The view of a [`Product`].
pub struct ProductView {
    /// Header.
    pub header: HeaderView,
    /// Declared files.
    pub files: Seq<FileView>,
    /// Lamp types of the changeable light sources.
    pub changeable_lamp_types: Seq<Seq<char>>,
    /// Lamp types of the fixed light sources.
    pub fixed_lamp_types: Seq<Seq<char>>,
    /// Interfaces of the control gears.
    pub control_gear_interfaces: Seq<Seq<char>>,
    /// Name by language.
    pub name: Seq<(Seq<char>, Seq<char>)>,
    /// Description by language.
    pub description: Seq<(Seq<char>, Seq<char>)>,
    /// Tender text by language.
    pub tender_text: Seq<(Seq<char>, Seq<char>)>,
    /// Product number by language.
    pub product_number: Seq<(Seq<char>, Seq<char>)>,
    /// Variants.
    pub variants: Seq<ProductVariantView>,
}

impl View for Product {
    type V = ProductView;

    open spec fn view(&self) -> ProductView {
        ProductView {
            header: self.header@,
            files: file_views(self.files@),
            changeable_lamp_types: texts(self.changeable_lamp_types@),
            fixed_lamp_types: texts(self.fixed_lamp_types@),
            control_gear_interfaces: texts(self.control_gear_interfaces@),
            name: entry_views(self.name@),
            description: entry_views(self.description@),
            tender_text: entry_views(self.tender_text@),
            product_number: entry_views(self.product_number@),
            variants: product_variant_views(self.variants@),
        }
    }
}

/// The positions below `n` of the files whose content type begins with
/// `kind`.
pub open spec fn files_of(files: Seq<FileView>, kind: Seq<char>, n: int) -> Seq<int>
    decreases n,
{
    if n <= 0 {
        Seq::empty()
    } else if has_prefix(files[n - 1].content_type, kind) {
        files_of(files, kind, n - 1).push(n - 1)
    } else {
        files_of(files, kind, n - 1)
    }
}

/// The positions of the photometric files.
pub open spec fn photometric_files(files: Seq<FileView>) -> Seq<int> {
    files_of(files, "ldc"@, files.len() as int)
}

/// The positions of the image files.
pub open spec fn image_files(files: Seq<FileView>) -> Seq<int> {
    files_of(files, "image"@, files.len() as int)
}

/// Positions as mathematical integers.
pub open spec fn positions(v: Seq<usize>) -> Seq<int> {
    v.map_values(|i: usize| i as int)
}

/// The positions of the files whose content type begins with `kind`.
pub fn files_of_kind(files: &Vec<FileEntry>, kind: &str) -> (r: Vec<usize>)
    ensures
        positions(r@) == files_of(file_views(files@), kind@, files@.len() as int),
        forall|k: int| 0 <= k < r@.len() ==> #[trigger] r@[k] < files@.len(),
{
    let mut r: Vec<usize> = Vec::new();
    let mut i: usize = 0;
    let ghost views = file_views(files@);
    proof {
        assert(positions(r@) =~= Seq::empty());
    }
    while i < files.len()
        invariant
            i <= files@.len(),
            views == file_views(files@),
            positions(r@) == files_of(views, kind@, i as int),
            forall|k: int| 0 <= k < r@.len() ==> #[trigger] r@[k] < files@.len(),
        decreases files@.len() - i,
    {
        proof {
            assert(views[i as int] == files@[i as int]@);
        }
        if begins_with(files[i].content_type.as_str(), kind) {
            let ghost before = positions(r@);
            r.push(i);
            proof {
                assert(positions(r@) =~= before.push(i as int));
            }
        }
        i += 1;
    }
    r
}

impl Product {
    /// The positions of the photometric files.
    pub fn get_phot_files(&self) -> (r: Vec<usize>)
        ensures
            positions(r@) == photometric_files(self@.files),
            forall|k: int| 0 <= k < r@.len() ==> #[trigger] r@[k] < self.files@.len(),
    {
        files_of_kind(&self.files, "ldc")
    }

    /// The positions of the image files.
    pub fn get_image_def_files(&self) -> (r: Vec<usize>)
        ensures
            positions(r@) == image_files(self@.files),
            forall|k: int| 0 <= k < r@.len() ==> #[trigger] r@[k] < self.files@.len(),
    {
        files_of_kind(&self.files, "image")
    }
}

/// The value in English where there is one that is not empty, else the
/// first that is not empty.
pub open spec fn preferred_value(bag: Seq<(Seq<char>, Seq<char>)>) -> Option<Seq<char>> {
    match first_where(bag, |e: (Seq<char>, Seq<char>)| english(e.0) && e.1.len() > 0, 0) {
        Some(v) => Some(v),
        None => first_where(bag, |e: (Seq<char>, Seq<char>)| e.1.len() > 0, 0),
    }
}

/// Whether a language code is that of English, in either case.
pub open spec fn english(language: Seq<char>) -> bool {
    crate::text::ascii_lower(language) == "en"@
}

/// The value of the first entry from the `i`th on that is wanted.
pub open spec fn first_where(
    bag: Seq<(Seq<char>, Seq<char>)>,
    wanted: spec_fn((Seq<char>, Seq<char>)) -> bool,
    i: int,
) -> Option<Seq<char>>
    decreases bag.len() - i,
{
    if i < 0 || i >= bag.len() {
        None
    } else if wanted(bag[i]) {
        Some(bag[i].1)
    } else {
        first_where(bag, wanted, i + 1)
    }
}

/// A value that is given is one of those there, and not empty; there is
/// one exactly where some value is not empty.
pub proof fn preferred_value_is_there(bag: Seq<(Seq<char>, Seq<char>)>)
    ensures
        preferred_value(bag) is Some <==> exists|i: int|
            0 <= i < bag.len() && (#[trigger] bag[i]).1.len() > 0,
        preferred_value(bag) matches Some(v) ==> v.len() > 0 && exists|i: int|
            0 <= i < bag.len() && (#[trigger] bag[i]).1 == v,
{
    let in_english = |e: (Seq<char>, Seq<char>)| english(e.0) && e.1.len() > 0;
    let any = |e: (Seq<char>, Seq<char>)| e.1.len() > 0;
    first_where_is_first(bag, in_english, 0);
    first_where_is_first(bag, any, 0);
}

/// English comes before all other languages, and what stands first
/// before what follows.
pub proof fn english_comes_first(bag: Seq<(Seq<char>, Seq<char>)>, i: int)
    requires
        0 <= i < bag.len(),
        bag[i].1.len() > 0,
    ensures
        (bag[i].0 == "en"@ || bag[i].0 == "EN"@) && (forall|j: int|
            0 <= j < i ==> !english((#[trigger] bag[j]).0)) ==> preferred_value(bag) == Some(
            bag[i].1,
        ),
        (forall|j: int| 0 <= j < bag.len() ==> !english((#[trigger] bag[j]).0)) && (forall|j: int|
            0 <= j < i ==> (#[trigger] bag[j]).1.len() == 0) ==> preferred_value(bag) == Some(
            bag[i].1,
        ),
{
    let in_english = |e: (Seq<char>, Seq<char>)| english(e.0) && e.1.len() > 0;
    let any = |e: (Seq<char>, Seq<char>)| e.1.len() > 0;
    first_where_is_first(bag, in_english, 0);
    first_where_is_first(bag, any, 0);
    reveal_strlit("en");
    reveal_strlit("EN");
    assert(crate::text::ascii_lower("en"@) =~= "en"@);
    assert(crate::text::ascii_lower("EN"@) =~= "en"@);
    if bag[i].0 == "en"@ || bag[i].0 == "EN"@ {
        assert(in_english(bag[i]));
    }
    assert(any(bag[i]));
}

proof fn first_where_is_first(
    bag: Seq<(Seq<char>, Seq<char>)>,
    wanted: spec_fn((Seq<char>, Seq<char>)) -> bool,
    i: int,
)
    requires
        0 <= i <= bag.len(),
    ensures
        match first_where(bag, wanted, i) {
            Some(v) => exists|k: int|
                i <= k < bag.len() && wanted(#[trigger] bag[k]) && bag[k].1 == v && forall|j: int|
                    i <= j < k ==> !wanted(#[trigger] bag[j]),
            None => forall|k: int| i <= k < bag.len() ==> !wanted(#[trigger] bag[k]),
        },
    decreases bag.len() - i,
{
    if i < bag.len() {
        if wanted(bag[i]) {
            assert(wanted(bag[i]) && bag[i].1 == first_where(bag, wanted, i)->0);
        } else {
            first_where_is_first(bag, wanted, i + 1);
            if first_where(bag, wanted, i) is Some {
                let v = first_where(bag, wanted, i)->0;
                let k = choose|k: int|
                    i + 1 <= k < bag.len() && wanted(#[trigger] bag[k]) && bag[k].1 == v && forall|
                        j: int,
                    | i + 1 <= j < k ==> !wanted(#[trigger] bag[j]);
                assert(wanted(bag[k]) && bag[k].1 == v);
            }
        }
    }
}

/// The photometric files are those of a content type that begins with
/// `ldc`, and the image files those of one that begins with `image`, in
/// the order of the files.
pub proof fn files_are_told_by_content_type(files: Seq<FileView>, i: int)
    requires
        0 <= i < files.len(),
    ensures
        photometric_files(files).contains(i) <==> has_prefix(files[i].content_type, "ldc"@),
        image_files(files).contains(i) <==> has_prefix(files[i].content_type, "image"@),
        forall|a: int, b: int|
            0 <= a < b < photometric_files(files).len() ==> #[trigger] photometric_files(files)[a]
                < #[trigger] photometric_files(files)[b],
        forall|a: int, b: int|
            0 <= a < b < image_files(files).len() ==> #[trigger] image_files(files)[a]
                < #[trigger] image_files(files)[b],
{
    files_of_exact(files, "ldc"@, files.len() as int, i);
    files_of_exact(files, "image"@, files.len() as int, i);
}

proof fn files_of_exact(files: Seq<FileView>, kind: Seq<char>, n: int, i: int)
    requires
        0 <= n <= files.len(),
        0 <= i,
    ensures
        files_of(files, kind, n).contains(i) <==> i < n && has_prefix(files[i].content_type, kind),
        forall|a: int|
            0 <= a < files_of(files, kind, n).len() ==> 0 <= #[trigger] files_of(files, kind, n)[a]
                < n,
        forall|a: int, b: int|
            0 <= a < b < files_of(files, kind, n).len() ==> #[trigger] files_of(files, kind, n)[a]
                < #[trigger] files_of(files, kind, n)[b],
    decreases n,
{
    if n > 0 {
        files_of_exact(files, kind, n - 1, i);
        let front = files_of(files, kind, n - 1);
        let all = files_of(files, kind, n);
        if has_prefix(files[n - 1].content_type, kind) {
            assert(all == front.push(n - 1));
            if front.contains(i) {
                let k = choose|k: int| 0 <= k < front.len() && front[k] == i;
                assert(all[k] == i);
            }
            if i == n - 1 {
                assert(all[front.len() as int] == i);
            }
            if all.contains(i) {
                let k = choose|k: int| 0 <= k < all.len() && all[k] == i;
                if k < front.len() {
                    assert(front[k] == i);
                }
            }
        }
    }
}

/// The preferred value of texts in several languages.
pub fn first_locale_value(bag: &Vec<LocaleEntry>) -> (r: Option<String>)
    ensures
        opt_text(r) == preferred_value(entry_views(bag@)),
{
    let ghost views = entry_views(bag@);
    let ghost in_english = |e: (Seq<char>, Seq<char>)| english(e.0) && e.1.len() > 0;
    let ghost any = |e: (Seq<char>, Seq<char>)| e.1.len() > 0;
    let mut i: usize = 0;
    while i < bag.len()
        invariant
            i <= bag@.len(),
            views == entry_views(bag@),
            in_english == (|e: (Seq<char>, Seq<char>)| english(e.0) && e.1.len() > 0),
            first_where(views, in_english, 0) == first_where(views, in_english, i as int),
        decreases bag@.len() - i,
    {
        proof {
            assert(views[i as int] == bag@[i as int]@);
        }
        let language: String = crate::text::to_ascii_lower(bag[i].language.as_str());
        if crate::text::same_text(language.as_str(), "en") && !bag[i].value.as_str().is_empty() {
            return Some(bag[i].value.clone());
        }
        i += 1;
    }
    let mut j: usize = 0;
    while j < bag.len()
        invariant
            j <= bag@.len(),
            views == entry_views(bag@),
            any == (|e: (Seq<char>, Seq<char>)| e.1.len() > 0),
            in_english == (|e: (Seq<char>, Seq<char>)| english(e.0) && e.1.len() > 0),
            first_where(views, in_english, 0) is None,
            first_where(views, any, 0) == first_where(views, any, j as int),
        decreases bag@.len() - j,
    {
        proof {
            assert(views[j as int] == bag@[j as int]@);
        }
        if !bag[j].value.as_str().is_empty() {
            return Some(bag[j].value.clone());
        }
        j += 1;
    }
    None
}

/// The signed decimal numeral of a number.
pub open spec fn signed_decimal(n: int) -> Seq<char> {
    if n < 0 {
        seq!['-'] + crate::text::decimal((-n) as nat)
    } else {
        crate::text::decimal(n as nat)
    }
}

/// How a version is written: major, minor and a zero, and the number of
/// the release candidate where there is one.
pub open spec fn version_text(v: FormatVersion) -> Seq<char> {
    signed_decimal(v.major as int) + "."@ + signed_decimal(v.minor as int) + ".0"@ + (
    match v.pre_release {
        Some(n) => "-rc."@ + signed_decimal(n as int),
        None => Seq::empty(),
    })
}

/// The signed decimal numeral of a number.
fn to_signed_decimal(n: i32) -> (r: String)
    ensures
        r@ == signed_decimal(n as int),
{
    if n < 0 {
        let mut s: String = String::new();
        s.push('-');
        let magnitude: u64 = (-(n as i64)) as u64;
        crate::text::push_text(&mut s, crate::text::to_decimal(magnitude).as_str());
        proof {
            assert(s@ =~= seq!['-'] + crate::text::decimal(magnitude as nat));
        }
        s
    } else {
        crate::text::to_decimal(n as u64)
    }
}

/// How a version is written.
pub fn format_version_string(v: FormatVersion) -> (r: String)
    ensures
        r@ == version_text(v),
{
    let mut s: String = to_signed_decimal(v.major);
    crate::text::push_text(&mut s, ".");
    crate::text::push_text(&mut s, to_signed_decimal(v.minor).as_str());
    crate::text::push_text(&mut s, ".0");
    match v.pre_release {
        Some(n) => {
            let ghost before = s@;
            crate::text::push_text(&mut s, "-rc.");
            crate::text::push_text(&mut s, to_signed_decimal(n).as_str());
            proof {
                assert(s@ =~= before + ("-rc."@ + signed_decimal(n as int)));
            }
        },
        None => {
            proof {
                assert(s@ + Seq::<char>::empty() =~= s@);
            }
        },
    }
    s
}

/// A version is written with a third number of zero, and with the number
/// of the release candidate where there is one.
pub proof fn versions_are_written_in_three_numbers(major: i32, minor: i32, rc: i32)
    requires
        major >= 0,
        minor >= 0,
        rc >= 0,
    ensures
        version_text(FormatVersion { major, minor, pre_release: None }) == crate::text::decimal(
            major as nat,
        ) + "."@ + crate::text::decimal(minor as nat) + ".0"@,
        version_text(FormatVersion { major, minor, pre_release: Some(rc) })
            == crate::text::decimal(major as nat) + "."@ + crate::text::decimal(minor as nat)
            + ".0"@ + "-rc."@ + crate::text::decimal(rc as nat),
{
    let head = crate::text::decimal(major as nat) + "."@ + crate::text::decimal(minor as nat)
        + ".0"@;
    assert(version_text(FormatVersion { major, minor, pre_release: None }) =~= head);
    assert(version_text(FormatVersion { major, minor, pre_release: Some(rc) }) =~= head + "-rc."@
        + crate::text::decimal(rc as nat));
}

} // verus!
