use gldf_search::doc::DocId;
use gldf_search::doc_id::derive_doc_id;
use gldf_search::fold::family_doc_id;
use gldf_search::hex::{hex_of, parse_doc_id};

#[test]
fn unique_id_drives_the_hash() {
    let a = derive_doc_id(Some("urn:uuid:0001"), Some(b"different"));
    let b = derive_doc_id(Some("urn:uuid:0001"), Some(b"also-different"));
    assert_eq!(a, b);
}

#[test]
fn whitespace_only_unique_id_falls_back_to_bytes() {
    let a = derive_doc_id(Some("   "), Some(b"hello"));
    let b = derive_doc_id(None, Some(b"hello"));
    assert_eq!(a, b, "whitespace-only id must not affect the digest");
}

#[test]
fn missing_both_yields_zeros() {
    let id = derive_doc_id(None, None);
    assert_eq!(id, DocId([0; 32]));
}

#[test]
fn distinct_unique_ids_differ() {
    let a = derive_doc_id(Some("urn:uuid:0001"), None);
    let b = derive_doc_id(Some("urn:uuid:0002"), None);
    assert_ne!(a, b);
}

#[test]
fn bytes_are_hashed_with_blake3() {
    let id = derive_doc_id(None, Some(b"hello"));
    assert_eq!(id.0, *blake3::hash(b"hello").as_bytes());
}

#[test]
fn hex_of_an_id_reads_back() {
    let id = family_doc_id("ERCO", "Compar");
    let hex = hex_of(&id);
    assert_eq!(hex.len(), 64);
    assert_eq!(parse_doc_id(&hex), Some(id));
    assert_eq!(parse_doc_id(&hex.to_uppercase()), Some(id));
    assert_eq!(parse_doc_id(&hex[1..]), None);
    assert_eq!(parse_doc_id(&hex.replace(&hex[0..1], "g")), None);
    assert_eq!(hex_of(&DocId([0xab; 32])), "ab".repeat(32));
}
