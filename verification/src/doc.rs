//! Luminaire documents: what the index holds of one GLDF file.

use crate::ids::IdList;
use crate::text::{copy_opt_text, copy_texts, opt_text, texts};
use vstd::prelude::*;

verus! {

/// Identity of a document.
#[derive(Clone, Copy, PartialEq, Eq, Debug, Hash)]
pub struct DocId(pub [u8; 32]);

impl View for DocId {
    type V = Seq<u8>;

    open spec fn view(&self) -> Seq<u8> {
        self.0@
    }
}

/// Whether two documents have the same identity.
pub fn same_id(a: &DocId, b: &DocId) -> (r: bool)
    ensures
        r == (a@ == b@),
{
    let mut i: usize = 0;
    while i < 32
        invariant
            i <= 32,
            forall|j: int| 0 <= j < i ==> a@[j] == b@[j],
        decreases 32 - i,
    {
        if a.0[i] != b.0[i] {
            return false;
        }
        i += 1;
    }
    proof {
        assert(a@ =~= b@);
    }
    true
}

/// The identity of all zeros: no identity was available.
pub open spec fn no_identity() -> Seq<u8> {
    Seq::new(32, |i: int| 0u8)
}

/// A two-letter language code, in small letters.
#[derive(Clone, Copy, PartialEq, Eq, Debug, Hash, Structural)]
pub struct Locale(pub u8, pub u8);

/// Where a document came from.
#[derive(Debug)]
pub enum SourceRef {
    /// A path below the corpus root.
    Path(String),
    /// An address.
    Url(String),
    /// Content without a place.
    ContentOnly,
}

/// The view of a [`SourceRef`].
pub enum SourceView {
    /// A path below the corpus root.
    Path(Seq<char>),
    /// An address.
    Url(Seq<char>),
    /// Content without a place.
    ContentOnly,
}

impl View for SourceRef {
    type V = SourceView;

    open spec fn view(&self) -> SourceView {
        match self {
            SourceRef::Path(s) => SourceView::Path(s@),
            SourceRef::Url(s) => SourceView::Url(s@),
            SourceRef::ContentOnly => SourceView::ContentOnly,
        }
    }
}

impl SourceRef {
    /// A source of its own at the same place.
    pub fn copy(&self) -> (r: SourceRef)
        ensures
            r@ == self@,
    {
        match self {
            SourceRef::Path(s) => SourceRef::Path(s.clone()),
            SourceRef::Url(s) => SourceRef::Url(s.clone()),
            SourceRef::ContentOnly => SourceRef::ContentOnly,
        }
    }
}

/// The surface that a luminaire is mounted on.
#[derive(Clone, Copy, PartialEq, Eq, Debug, Hash, Structural)]
pub enum MountingPlace {
    /// On or in the ceiling.
    Ceiling,
    /// On or in a wall.
    Wall,
    /// On the working plane.
    WorkingPlane,
    /// On or in the ground.
    Ground,
    /// Not declared.
    Unknown,
}

/// How a luminaire is mounted.
#[derive(Clone, Copy, PartialEq, Eq, Debug, Hash, Structural)]
pub enum MountingType {
    /// Set into the surface.
    Recessed,
    /// Fixed onto the surface.
    SurfaceMounted,
    /// Hanging.
    Pendant,
    /// Standing freely.
    FreeStanding,
    /// On top of a pole.
    PoleTop,
    /// Part of a pole.
    PoleIntegrated,
    /// Not declared.
    Unknown,
}

/// Symmetry of a light distribution.
#[derive(Clone, Copy, PartialEq, Eq, Debug, Hash, Structural)]
pub enum PhotometricSymmetryHint {
    /// Nothing is known.
    Unknown,
    /// No symmetry.
    Asymmetric,
    /// Symmetry about the vertical axis or about both planes.
    Rotational,
    /// Symmetry about one plane.
    Axial,
}

/// The symmetry that a declared light distribution implies.
pub open spec fn hint_of_distribution(id: u8) -> PhotometricSymmetryHint {
    if id <= 3 {
        PhotometricSymmetryHint::Rotational
    } else if id <= 5 {
        PhotometricSymmetryHint::Axial
    } else if id <= 8 {
        PhotometricSymmetryHint::Asymmetric
    } else {
        PhotometricSymmetryHint::Unknown
    }
}

impl PhotometricSymmetryHint {
    /// The symmetry that a declared light distribution implies: the
    /// laterally symmetrical ones and the one symmetrical in each
    /// quadrant are rotational, the two with a symmetry plane are axial,
    /// the three asymmetrical ones are asymmetric.
    pub fn from_light_distribution_id(id: u8) -> (r: PhotometricSymmetryHint)
        ensures
            r == hint_of_distribution(id),
    {
        if id <= 3 {
            PhotometricSymmetryHint::Rotational
        } else if id <= 5 {
            PhotometricSymmetryHint::Axial
        } else if id <= 8 {
            PhotometricSymmetryHint::Asymmetric
        } else {
            PhotometricSymmetryHint::Unknown
        }
    }
}

/// Photometric figures of one variant. The measurements are order keys.
#[derive(Clone, Copy, PartialEq, Eq, Debug, Structural)]
pub struct PhotometryStats {
    /// Luminous flux (lm).
    pub flux_lm: Option<i32>,
    /// Electrical power (W).
    pub power_w: Option<i32>,
    /// Luminous efficacy (lm/W).
    pub efficacy_lm_w: Option<i32>,
    /// Correlated colour temperature (K).
    pub cct_k: Option<u16>,
    /// Colour rendering index.
    pub cri_ra: Option<u8>,
    /// Red rendering.
    pub r9: Option<i32>,
    /// Half-peak beam angle (degrees).
    pub beam_deg: Option<i32>,
    /// Tenth-peak field angle (degrees).
    pub field_deg: Option<i32>,
    /// Upward light output ratio.
    pub ulor: Option<i32>,
    /// Downward light output ratio.
    pub dlor: Option<i32>,
    /// Symmetry of the distribution.
    pub symmetry: PhotometricSymmetryHint,
    /// Light distribution id.
    pub light_distribution: Option<u8>,
}

/// One variant of a luminaire.
pub struct VariantDoc {
    /// Number of the variant within its document.
    pub id: u16,
    /// Display name.
    pub name: String,
    /// Photometric figures, where any are known.
    pub photometry: Option<PhotometryStats>,
    /// Surface the variant is mounted on.
    pub mounting_place: MountingPlace,
    /// How the variant is mounted.
    pub mounting_type: MountingType,
    /// Depth of the recess (mm).
    pub recessed_depth_mm: Option<u32>,
    /// Whether a 3D model comes with the variant.
    pub has_3d: bool,
    /// Lamp type id.
    pub lamp_type: Option<u8>,
    /// Control gear interface ids.
    pub control_gear_interfaces: IdList,
    /// Whether the variant serves emergency lighting.
    pub has_emergency_lighting: bool,
    /// Emergency lighting type id.
    pub emergency_lighting_type: Option<u8>,
    /// Number of emitters.
    pub emitter_count: u16,
    /// Position in the document's `source_paths` of the file that the
    /// variant came from.
    pub source_index: u16,
}

/// The view of a [`VariantDoc`].
pub struct VariantView {
    /// Number of the variant within its document.
    pub id: u16,
    /// Display name.
    pub name: Seq<char>,
    /// Photometric figures.
    pub photometry: Option<PhotometryStats>,
    /// Surface the variant is mounted on.
    pub mounting_place: MountingPlace,
    /// How the variant is mounted.
    pub mounting_type: MountingType,
    /// Depth of the recess (mm).
    pub recessed_depth_mm: Option<u32>,
    /// Whether a 3D model comes with the variant.
    pub has_3d: bool,
    /// Lamp type id.
    pub lamp_type: Option<u8>,
    /// Control gear interface ids.
    pub control_gear_interfaces: Seq<u8>,
    /// Whether the variant serves emergency lighting.
    pub has_emergency_lighting: bool,
    /// Emergency lighting type id.
    pub emergency_lighting_type: Option<u8>,
    /// Number of emitters.
    pub emitter_count: u16,
    /// Position of the source file.
    pub source_index: u16,
}

impl View for VariantDoc {
    type V = VariantView;

    open spec fn view(&self) -> VariantView {
        VariantView {
            id: self.id,
            name: self.name@,
            photometry: self.photometry,
            mounting_place: self.mounting_place,
            mounting_type: self.mounting_type,
            recessed_depth_mm: self.recessed_depth_mm,
            has_3d: self.has_3d,
            lamp_type: self.lamp_type,
            control_gear_interfaces: self.control_gear_interfaces@,
            has_emergency_lighting: self.has_emergency_lighting,
            emergency_lighting_type: self.emergency_lighting_type,
            emitter_count: self.emitter_count,
            source_index: self.source_index,
        }
    }
}

impl VariantDoc {
    /// A variant of its own with the same content.
    pub fn copy(&self) -> (r: VariantDoc)
        ensures
            r@ == self@,
    {
        VariantDoc {
            id: self.id,
            name: self.name.clone(),
            photometry: self.photometry,
            mounting_place: self.mounting_place,
            mounting_type: self.mounting_type,
            recessed_depth_mm: self.recessed_depth_mm,
            has_3d: self.has_3d,
            lamp_type: self.lamp_type,
            control_gear_interfaces: self.control_gear_interfaces.copy(),
            has_emergency_lighting: self.has_emergency_lighting,
            emergency_lighting_type: self.emergency_lighting_type,
            emitter_count: self.emitter_count,
            source_index: self.source_index,
        }
    }
}

/// Facts about the file that a document came from.
#[derive(Debug)]
pub struct FileMeta {
    /// Size of the file.
    pub size_bytes: u64,
    /// Time of the last change, in seconds since the epoch.
    pub mtime_epoch_s: Option<u64>,
    /// Version of the file format.
    pub format_version: Option<String>,
}

/// The view of a [`FileMeta`].
pub struct FileMetaView {
    /// Size of the file.
    pub size_bytes: u64,
    /// Time of the last change.
    pub mtime_epoch_s: Option<u64>,
    /// Version of the file format.
    pub format_version: Option<Seq<char>>,
}

impl View for FileMeta {
    type V = FileMetaView;

    open spec fn view(&self) -> FileMetaView {
        FileMetaView {
            size_bytes: self.size_bytes,
            mtime_epoch_s: self.mtime_epoch_s,
            format_version: opt_text(self.format_version),
        }
    }
}

/// One indexed luminaire.
pub struct LuminaireDoc {
    /// Identity.
    pub id: DocId,
    /// Primary source.
    pub source: SourceRef,
    /// Every file that contributed.
    pub source_paths: Vec<SourceRef>,
    /// Manufacturer, as displayed.
    pub manufacturer: String,
    /// Product name.
    pub product: String,
    /// Global trade item number.
    pub gtin: Option<String>,
    /// Product code.
    pub product_code: Option<String>,
    /// Descriptive text by language.
    pub descriptions: Vec<(Locale, String)>,
    /// Keywords.
    pub keywords: Vec<String>,
    /// Application ids.
    pub applications: IdList,
    /// Label ids.
    pub labels: IdList,
    /// Adjustability ids.
    pub adjustability: IdList,
    /// IP code id.
    pub ip_code: Option<u8>,
    /// Safety class id.
    pub safety_class: Option<u8>,
    /// IK rating id.
    pub ik_rating: Option<u8>,
    /// Product form id.
    pub product_form: Option<u8>,
    /// Variants.
    pub variants: Vec<VariantDoc>,
    /// Facts about the file.
    pub file_meta: FileMeta,
}

/// The view of a [`LuminaireDoc`].
pub struct DocView {
    /// Identity.
    pub id: Seq<u8>,
    /// Primary source.
    pub source: SourceView,
    /// Every file that contributed.
    pub source_paths: Seq<SourceView>,
    /// Manufacturer.
    pub manufacturer: Seq<char>,
    /// Product name.
    pub product: Seq<char>,
    /// Global trade item number.
    pub gtin: Option<Seq<char>>,
    /// Product code.
    pub product_code: Option<Seq<char>>,
    /// Descriptive text by language.
    pub descriptions: Seq<(Locale, Seq<char>)>,
    /// Keywords.
    pub keywords: Seq<Seq<char>>,
    /// Application ids.
    pub applications: Seq<u8>,
    /// Label ids.
    pub labels: Seq<u8>,
    /// Adjustability ids.
    pub adjustability: Seq<u8>,
    /// IP code id.
    pub ip_code: Option<u8>,
    /// Safety class id.
    pub safety_class: Option<u8>,
    /// IK rating id.
    pub ik_rating: Option<u8>,
    /// Product form id.
    pub product_form: Option<u8>,
    /// Variants.
    pub variants: Seq<VariantView>,
    /// Facts about the file.
    pub file_meta: FileMetaView,
}

/// The views of a sequence of sources.
pub open spec fn source_views(v: Seq<SourceRef>) -> Seq<SourceView> {
    v.map_values(|s: SourceRef| s@)
}

/// The views of a sequence of variants.
pub open spec fn variant_views(v: Seq<VariantDoc>) -> Seq<VariantView> {
    v.map_values(|d: VariantDoc| d@)
}

/// The views of language-tagged texts.
pub open spec fn tagged_views(v: Seq<(Locale, String)>) -> Seq<(Locale, Seq<char>)> {
    v.map_values(|d: (Locale, String)| (d.0, d.1@))
}

/// The views of a sequence of documents.
pub open spec fn doc_views(v: Seq<LuminaireDoc>) -> Seq<DocView> {
    v.map_values(|d: LuminaireDoc| d@)
}

impl View for LuminaireDoc {
    type V = DocView;

    open spec fn view(&self) -> DocView {
        DocView {
            id: self.id@,
            source: self.source@,
            source_paths: source_views(self.source_paths@),
            manufacturer: self.manufacturer@,
            product: self.product@,
            gtin: opt_text(self.gtin),
            product_code: opt_text(self.product_code),
            descriptions: tagged_views(self.descriptions@),
            keywords: texts(self.keywords@),
            applications: self.applications@,
            labels: self.labels@,
            adjustability: self.adjustability@,
            ip_code: self.ip_code,
            safety_class: self.safety_class,
            ik_rating: self.ik_rating,
            product_form: self.product_form,
            variants: variant_views(self.variants@),
            file_meta: self.file_meta@,
        }
    }
}

/// A copy of a list of sources.
pub fn copy_sources(list: &Vec<SourceRef>) -> (r: Vec<SourceRef>)
    ensures
        source_views(r@) == source_views(list@),
{
    let mut r: Vec<SourceRef> = Vec::new();
    let mut i: usize = 0;
    while i < list.len()
        invariant
            i <= list@.len(),
            r@.len() == i,
            forall|j: int| 0 <= j < i ==> (#[trigger] r@[j])@ == list@[j]@,
        decreases list@.len() - i,
    {
        r.push(list[i].copy());
        i += 1;
    }
    proof {
        assert(source_views(r@) =~= source_views(list@));
    }
    r
}

/// A copy of a list of variants.
pub fn copy_variants(list: &Vec<VariantDoc>) -> (r: Vec<VariantDoc>)
    ensures
        variant_views(r@) == variant_views(list@),
{
    let mut r: Vec<VariantDoc> = Vec::new();
    let mut i: usize = 0;
    while i < list.len()
        invariant
            i <= list@.len(),
            r@.len() == i,
            forall|j: int| 0 <= j < i ==> (#[trigger] r@[j])@ == list@[j]@,
        decreases list@.len() - i,
    {
        r.push(list[i].copy());
        i += 1;
    }
    proof {
        assert(variant_views(r@) =~= variant_views(list@));
    }
    r
}

/// A copy of language-tagged texts.
pub fn copy_tagged(list: &Vec<(Locale, String)>) -> (r: Vec<(Locale, String)>)
    ensures
        tagged_views(r@) == tagged_views(list@),
{
    let mut r: Vec<(Locale, String)> = Vec::new();
    let mut i: usize = 0;
    while i < list.len()
        invariant
            i <= list@.len(),
            r@.len() == i,
            forall|j: int| 0 <= j < i ==> (#[trigger] r@[j]).0 == list@[j].0 && r@[j].1@ == list@[j].1@,
        decreases list@.len() - i,
    {
        r.push((list[i].0, list[i].1.clone()));
        i += 1;
    }
    proof {
        assert(tagged_views(r@) =~= tagged_views(list@));
    }
    r
}

impl FileMeta {
    /// Facts of their own with the same content.
    pub fn copy(&self) -> (r: FileMeta)
        ensures
            r@ == self@,
    {
        FileMeta {
            size_bytes: self.size_bytes,
            mtime_epoch_s: self.mtime_epoch_s,
            format_version: copy_opt_text(&self.format_version),
        }
    }
}

impl LuminaireDoc {
    /// A document of its own with the same content.
    pub fn copy(&self) -> (r: LuminaireDoc)
        ensures
            r@ == self@,
    {
        LuminaireDoc {
            id: self.id,
            source: self.source.copy(),
            source_paths: copy_sources(&self.source_paths),
            manufacturer: self.manufacturer.clone(),
            product: self.product.clone(),
            gtin: copy_opt_text(&self.gtin),
            product_code: copy_opt_text(&self.product_code),
            descriptions: copy_tagged(&self.descriptions),
            keywords: copy_texts(&self.keywords),
            applications: self.applications.copy(),
            labels: self.labels.copy(),
            adjustability: self.adjustability.copy(),
            ip_code: self.ip_code,
            safety_class: self.safety_class,
            ik_rating: self.ik_rating,
            product_form: self.product_form,
            variants: copy_variants(&self.variants),
            file_meta: self.file_meta.copy(),
        }
    }
}

/// The language of a code: two ASCII letters, in either case.
pub open spec fn locale_of(s: Seq<char>) -> Option<Locale> {
    if s.len() == 2 && letter(s[0]) && letter(s[1]) {
        Some(
            Locale(
                crate::text::ascii_lower_char(s[0]) as u8,
                crate::text::ascii_lower_char(s[1]) as u8,
            ),
        )
    } else {
        None
    }
}

/// Whether `c` is an ASCII letter.
pub open spec fn letter(c: char) -> bool {
    ('a' <= c && c <= 'z') || ('A' <= c && c <= 'Z')
}

/// Whether `a` stands before `b` in the order of language codes.
pub open spec fn locale_lt(a: Locale, b: Locale) -> bool {
    a.0 < b.0 || (a.0 == b.0 && a.1 < b.1)
}

impl Locale {
    /// The language of a two-letter code; `None` for anything else,
    /// such as a code with a region.
    pub fn from_str(s: &str) -> (r: Option<Locale>)
        ensures
            r == locale_of(s@),
    {
        let cs: Vec<char> = crate::text::chars_of(s);
        if cs.len() != 2 {
            return None;
        }
        let a: char = crate::text::to_ascii_lower_char(cs[0]);
        let b: char = crate::text::to_ascii_lower_char(cs[1]);
        if 'a' <= a && a <= 'z' && 'a' <= b && b <= 'z' {
            Some(Locale(a as u8, b as u8))
        } else {
            None
        }
    }
}

/// The first four light distributions are rotational, the next two axial,
/// the next three asymmetric; of the others nothing is known.
pub proof fn distributions_imply_symmetries(id: u8)
    ensures
        hint_of_distribution(id) == PhotometricSymmetryHint::Rotational <==> id == 0 || id == 1
            || id == 2 || id == 3,
        hint_of_distribution(id) == PhotometricSymmetryHint::Axial <==> id == 4 || id == 5,
        hint_of_distribution(id) == PhotometricSymmetryHint::Asymmetric <==> id == 6 || id == 7
            || id == 8,
        hint_of_distribution(id) == PhotometricSymmetryHint::Unknown <==> id >= 9,
{
}

} // verus!
