//! Document identities from content.

use crate::doc::{no_identity, DocId};
use crate::text::{trim, trimmed};
use vstd::prelude::*;
use vstd::utf8::encode_utf8;

verus! {

/// The thirty-two byte BLAKE3 digest of some bytes.
pub uninterp spec fn blake3_digest(bytes: Seq<u8>) -> Seq<u8>;

/// Calls `blake3::hash` on the bytes and takes the digest's bytes as an
/// identity.
#[verifier::external_body]
pub(crate) fn hash_bytes(bytes: &[u8]) -> (r: DocId)
    ensures
        r@ == blake3_digest(bytes@),
{
    DocId(*blake3::hash(bytes).as_bytes())
}

/// The identity of a document: the digest of its unique id without the
/// white space around it, where that leaves anything; else the digest
/// of its bytes; else none.
pub open spec fn derived_id(unique_id: Option<Seq<char>>, raw: Option<Seq<u8>>) -> Seq<u8> {
    if unique_id is Some && trim(unique_id->0).len() > 0 {
        blake3_digest(encode_utf8(trim(unique_id->0)))
    } else {
        match raw {
            Some(b) => blake3_digest(b),
            None => no_identity(),
        }
    }
}

/// A unique id that is not blank decides the identity, whatever the
/// bytes are.
pub proof fn unique_id_decides(id: Seq<char>, a: Option<Seq<u8>>, b: Option<Seq<u8>>)
    requires
        trim(id).len() > 0,
    ensures
        derived_id(Some(id), a) == derived_id(Some(id), b),
{
}

/// A blank unique id counts as none.
pub proof fn blank_unique_id_is_none(id: Seq<char>, raw: Option<Seq<u8>>)
    requires
        trim(id).len() == 0,
    ensures
        derived_id(Some(id), raw) == derived_id(None, raw),
{
}

/// The identity is the digest of the unique id without the white space
/// around it, else the digest of the bytes, else all zeros.
pub proof fn identity_is_a_digest(id: Seq<char>, bytes: Seq<u8>, raw: Option<Seq<u8>>)
    ensures
        trim(id).len() > 0 ==> derived_id(Some(id), raw) == blake3_digest(encode_utf8(trim(id))),
        derived_id(None, Some(bytes)) == blake3_digest(bytes),
        derived_id(None, None).len() == 32,
        forall|i: int| 0 <= i < 32 ==> #[trigger] derived_id(None, None)[i] == 0,
{
}

/// The text of an optional string slice.
pub open spec fn opt_str(o: Option<&str>) -> Option<Seq<char>> {
    match o {
        Some(s) => Some(s@),
        None => None,
    }
}

/// The bytes of an optional slice.
pub open spec fn opt_bytes(o: Option<&[u8]>) -> Option<Seq<u8>> {
    match o {
        Some(s) => Some(s@),
        None => None,
    }
}

/// The identity of a document from its unique id or its bytes; all
/// zeros where neither is there.
pub fn derive_doc_id(unique_gldf_id: Option<&str>, raw_bytes: Option<&[u8]>) -> (r: DocId)
    ensures
        r@ == derived_id(opt_str(unique_gldf_id), opt_bytes(raw_bytes)),
{
    if let Some(s) = unique_gldf_id {
        let t: String = trimmed(s);
        if !t.as_str().is_empty() {
            return hash_bytes(t.as_str().as_bytes());
        }
    }
    match raw_bytes {
        Some(b) => hash_bytes(b),
        None => {
            let id: DocId = DocId([0;32]);
            proof {
                assert(id@ =~= no_identity());
            }
            id
        },
    }
}

} // verus!
