//! The frame around a stored corpus.
//!
//! A cache file is eight bytes that name the format and its version,
//! then the stored documents. A file with other bytes in front was
//! written for another version, or is none of ours.

use vstd::prelude::*;

verus! {

/// The bytes in front of a stored corpus.
pub const CACHE_MAGIC: [u8; 8] = [71, 83, 67, 65, 67, 72, 69, 11];

/// Why a cache file is refused.
#[derive(Clone, Copy, PartialEq, Eq, Debug, Structural)]
pub enum CacheError {
    /// It does not begin with the bytes that name the format.
    MagicMismatch,
}

/// A stored corpus with the bytes that name the format in front.
pub open spec fn framed(payload: Seq<u8>) -> Seq<u8> {
    CACHE_MAGIC@ + payload
}

/// What stands in a frame; nothing where the bytes in front are others.
pub open spec fn payload_of(file: Seq<u8>) -> Option<Seq<u8>> {
    if file.len() >= 8 && file.take(8) == CACHE_MAGIC@ {
        Some(file.skip(8))
    } else {
        None
    }
}

/// What is framed is read back.
pub proof fn frame_round_trip(payload: Seq<u8>)
    ensures
        payload_of(framed(payload)) == Some(payload),
{
    assert(framed(payload).take(8) =~= CACHE_MAGIC@);
    assert(framed(payload).skip(8) =~= payload);
}

/// What is read back was framed.
pub proof fn payload_round_trip(file: Seq<u8>)
    ensures
        payload_of(file) matches Some(p) ==> framed(p) == file,
{
    if let Some(p) = payload_of(file) {
        assert(framed(p) =~= file);
    }
}

/// Puts the bytes that name the format in front of a stored corpus.
pub fn frame(payload: &[u8]) -> (r: Vec<u8>)
    ensures
        r@ == framed(payload@),
{
    let magic: [u8; 8] = CACHE_MAGIC;
    let mut r: Vec<u8> = Vec::new();
    let mut i: usize = 0;
    while i < 8
        invariant
            i <= 8,
            magic@ == CACHE_MAGIC@,
            r@ == magic@.take(i as int),
        decreases 8 - i,
    {
        proof {
            assert(magic@.take(i + 1) =~= magic@.take(i as int).push(magic@[i as int]));
        }
        r.push(magic[i]);
        i += 1;
    }
    let mut j: usize = 0;
    proof {
        assert(magic@.take(8) =~= magic@);
        assert(magic@ + payload@.take(0) =~= magic@);
    }
    while j < payload.len()
        invariant
            j <= payload@.len(),
            r@ == magic@ + payload@.take(j as int),
        decreases payload@.len() - j,
    {
        proof {
            assert(magic@ + payload@.take(j + 1) =~= (magic@ + payload@.take(j as int)).push(
                payload@[j as int],
            ));
        }
        r.push(payload[j]);
        j += 1;
    }
    proof {
        assert(payload@.take(payload@.len() as int) =~= payload@);
    }
    r
}

/// The stored corpus within a cache file.
pub fn unframe(file: &[u8]) -> (r: Result<Vec<u8>, CacheError>)
    ensures
        match r {
            Ok(p) => payload_of(file@) == Some(p@),
            Err(e) => e == CacheError::MagicMismatch && payload_of(file@) is None,
        },
{
    if file.len() < 8 {
        return Err(CacheError::MagicMismatch);
    }
    let magic: [u8; 8] = CACHE_MAGIC;
    let mut i: usize = 0;
    while i < 8
        invariant
            i <= 8 <= file@.len(),
            magic@ == CACHE_MAGIC@,
            forall|k: int| 0 <= k < i ==> file@[k] == magic@[k],
        decreases 8 - i,
    {
        if file[i] != magic[i] {
            proof {
                assert(file@.take(8)[i as int] != CACHE_MAGIC@[i as int]);
            }
            return Err(CacheError::MagicMismatch);
        }
        i += 1;
    }
    proof {
        assert(file@.take(8) =~= CACHE_MAGIC@);
        assert(file@.subrange(8, 8) =~= Seq::empty());
    }
    let mut r: Vec<u8> = Vec::new();
    let mut j: usize = 8;
    while j < file.len()
        invariant
            8 <= j <= file@.len(),
            r@ == file@.subrange(8, j as int),
        decreases file@.len() - j,
    {
        proof {
            assert(file@.subrange(8, j + 1) =~= file@.subrange(8, j as int).push(
                file@[j as int],
            ));
        }
        r.push(file[j]);
        j += 1;
    }
    proof {
        assert(file@.skip(8) =~= file@.subrange(8, file@.len() as int));
    }
    Ok(r)
}

/// A stored corpus begins with the eight bytes that name its format, and
/// a file that begins otherwise is none.
pub proof fn stored_corpora_begin_with_their_mark(file: Seq<u8>)
    ensures
        payload_of(file) is Some <==> file.len() >= 8 && file[0] == 71 && file[1] == 83 && file[2]
            == 67 && file[3] == 65 && file[4] == 67 && file[5] == 72 && file[6] == 69 && file[7]
            == 11,
        payload_of(file) is Some ==> payload_of(file)->0.len() == file.len() - 8,
{
    let mark = CACHE_MAGIC@;
    assert(mark.len() == 8);
    assert(mark[0] == 71 && mark[1] == 83 && mark[2] == 67 && mark[3] == 65 && mark[4] == 67
        && mark[5] == 72 && mark[6] == 69 && mark[7] == 11);
    if file.len() >= 8 {
        let t = file.take(8);
        if t == mark {
            assert(t[0] == mark[0] && t[1] == mark[1] && t[2] == mark[2] && t[3] == mark[3]);
            assert(t[4] == mark[4] && t[5] == mark[5] && t[6] == mark[6] && t[7] == mark[7]);
        }
        if file[0] == 71 && file[1] == 83 && file[2] == 67 && file[3] == 65 && file[4] == 67
            && file[5] == 72 && file[6] == 69 && file[7] == 11 {
            assert(t =~= mark);
        }
    }
}

} // verus!
