//! Faceted search over luminaire documents.

use vstd::prelude::*;

pub mod api;
pub mod applications;
pub mod articles;
pub mod bounds;
pub mod cache;
pub mod chips;
pub mod corpus;
pub mod doc;
pub mod doc_id;
pub mod double;
pub mod extract;
pub mod facets;
pub mod figures;
pub mod filter;
pub mod fold;
pub mod geometry;
pub mod glyphs;
pub mod hex;
pub mod hits;
pub mod ids;
pub mod index;
pub mod inspect;
pub mod keys;
pub mod locale;
pub mod manufacturer;
pub mod media;
pub mod mining;
pub mod near;
pub mod paging;
pub mod panel;
pub mod photometry;
pub mod polar;
pub mod product;
pub mod query;
pub mod quotient;
pub mod report_text;
pub mod rows;
pub mod search;
pub mod selection;
pub mod sets;
pub mod sliders;
pub mod slug;
pub mod suggest;
pub mod tables;
pub mod text;
pub mod toggles;
pub mod tree;
pub mod typing;
pub mod wide;
pub mod words;

verus! {

} // verus!
