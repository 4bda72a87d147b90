//! Which file of a product belongs to a variant.
//!
//! Where a product has as many files of a kind as it has variants, they
//! belong together in order. Otherwise the first file serves every
//! variant.

use crate::product::{image_files, photometric_files, positions, FileView, Product, ProductView};
use crate::text::{holds_text, owned, push_text};
use vstd::prelude::*;

verus! {

/// The file for a variant, out of those at the given positions.
pub open spec fn file_for(found: Seq<int>, variants: nat, index: Option<usize>) -> Option<int> {
    if found.len() == 0 {
        None
    } else if index is Some && variants == found.len() && index->0 < found.len() {
        Some(found[index->0 as int])
    } else {
        Some(found[0])
    }
}

/// A product with as many files as variants gives each variant its own.
pub proof fn files_pair_up(found: Seq<int>, index: usize)
    requires
        index < found.len(),
    ensures
        file_for(found, found.len(), Some(index)) == Some(found[index as int]),
{
}

/// A product with another number of files gives every variant the same.
pub proof fn files_are_shared(found: Seq<int>, variants: nat, a: Option<usize>, b: Option<usize>)
    requires
        variants != found.len(),
    ensures
        file_for(found, variants, a) == file_for(found, variants, b),
{
}

/// The photometric file for a variant.
pub open spec fn ldt_for(p: ProductView, index: Option<usize>) -> Option<FileView> {
    match file_for(photometric_files(p.files), p.variants.len(), index) {
        Some(i) => Some(p.files[i]),
        None => None,
    }
}

/// The image file for a variant.
pub open spec fn image_for(p: ProductView, index: Option<usize>) -> Option<FileView> {
    match file_for(image_files(p.files), p.variants.len(), index) {
        Some(i) => Some(p.files[i]),
        None => None,
    }
}

/// The file for a variant is one of its kind, and there is one exactly
/// where the product declares one: its own where there are as many as
/// variants, else the first.
pub proof fn variants_have_files_of_their_kind(p: ProductView, index: usize)
    ensures
        ({
            let ldt = photometric_files(p.files);
            let images = image_files(p.files);
            &&& ldt_for(p, None) is Some <==> ldt.len() > 0
            &&& ldt.len() > 0 ==> ldt_for(p, None) == Some(p.files[ldt[0]])
            &&& ldt.len() == p.variants.len() && index < ldt.len() ==> ldt_for(p, Some(index))
                == Some(p.files[ldt[index as int]])
            &&& ldt.len() > 0 && (ldt.len() != p.variants.len() || index >= ldt.len()) ==> ldt_for(
                p,
                Some(index),
            ) == Some(p.files[ldt[0]])
            &&& image_for(p, None) is Some <==> images.len() > 0
            &&& images.len() > 0 ==> image_for(p, None) == Some(p.files[images[0]])
            &&& images.len() == p.variants.len() && index < images.len() ==> image_for(
                p,
                Some(index),
            ) == Some(p.files[images[index as int]])
            &&& images.len() > 0 && (images.len() != p.variants.len() || index >= images.len())
                ==> image_for(p, Some(index)) == Some(p.files[images[0]])
        }),
{
}

/// The place of an image within its container: a bare name stands among
/// the images.
pub open spec fn image_entry(file_name: Seq<char>) -> Seq<char> {
    if crate::text::has_infix(file_name, "/"@) {
        file_name
    } else {
        "image/"@ + file_name
    }
}

/// Where an image is found and of what type it is.
#[derive(Debug)]
pub struct ImageEntry {
    /// Content type.
    pub content_type: String,
    /// Place within the container.
    pub entry_path: String,
}

/// The position of the file for a variant.
fn pick(found: &Vec<usize>, variants: usize, index: Option<usize>) -> (r: Option<usize>)
    ensures
        match r {
            Some(i) => file_for(positions(found@), variants as nat, index) == Some(i as int)
                && found@.contains(i),
            None => file_for(positions(found@), variants as nat, index) is None,
        },
{
    if found.len() == 0 {
        return None;
    }
    match index {
        Some(i) => {
            if variants == found.len() && i < found.len() {
                proof {
                    assert(positions(found@)[i as int] == found@[i as int]);
                }
                return Some(found[i]);
            }
        },
        None => {},
    }
    proof {
        assert(positions(found@)[0] == found@[0]);
    }
    Some(found[0])
}

/// The id of the photometric file for a variant.
pub fn read_ldt_for_variant(p: &Product, variant_index: Option<usize>) -> (r: Option<String>)
    ensures
        match r {
            Some(id) => ldt_for(p@, variant_index) matches Some(f) && f.id == id@,
            None => ldt_for(p@, variant_index) is None,
        },
{
    let found: Vec<usize> = p.get_phot_files();
    match pick(&found, p.variants.len(), variant_index) {
        Some(i) => {
            proof {
                assert(p@.files[i as int] == p.files@[i as int]@);
            }
            Some(p.files[i].id.clone())
        },
        None => None,
    }
}

/// The id of the first photometric file.
pub fn read_first_ldt(p: &Product) -> (r: Option<String>)
    ensures
        match r {
            Some(id) => photometric_files(p@.files).len() > 0 && id@
                == p@.files[photometric_files(p@.files)[0]].id,
            None => photometric_files(p@.files).len() == 0,
        },
{
    read_ldt_for_variant(p, None)
}

/// The image for a variant.
pub fn read_image_for_variant(p: &Product, variant_index: Option<usize>) -> (r: Option<ImageEntry>)
    ensures
        match r {
            Some(e) => image_for(p@, variant_index) matches Some(f) && f.content_type
                == e.content_type@ && image_entry(f.file_name) == e.entry_path@,
            None => image_for(p@, variant_index) is None,
        },
{
    let found: Vec<usize> = p.get_image_def_files();
    match pick(&found, p.variants.len(), variant_index) {
        Some(i) => {
            proof {
                assert(p@.files[i as int] == p.files@[i as int]@);
            }
            let name: &String = &p.files[i].file_name;
            let entry_path: String = if holds_text(name.as_str(), "/") {
                name.clone()
            } else {
                let mut s: String = owned("image/");
                push_text(&mut s, name.as_str());
                s
            };
            Some(ImageEntry { content_type: p.files[i].content_type.clone(), entry_path })
        },
        None => None,
    }
}

/// The first image.
pub fn read_product_image(p: &Product) -> (r: Option<ImageEntry>)
    ensures
        match r {
            Some(e) => image_files(p@.files).len() > 0 && e.content_type@
                == p@.files[image_files(p@.files)[0]].content_type && e.entry_path@ == image_entry(
                p@.files[image_files(p@.files)[0]].file_name,
            ),
            None => image_files(p@.files).len() == 0,
        },
{
    read_image_for_variant(p, None)
}

/// An image with a path stands there; one without stands among the
/// images.
pub proof fn images_stand_among_images(dir: Seq<char>, name: Seq<char>)
    requires
        !crate::text::has_infix(name, "/"@),
    ensures
        image_entry(name) == "image/"@ + name,
        image_entry(dir + "/"@ + name) == dir + "/"@ + name,
{
    crate::text::parts_are_found(dir, "/"@, name);
}

} // verus!
