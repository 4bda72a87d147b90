//! Document identities as hexadecimal text.

use crate::doc::DocId;
use crate::text::chars_of;
use vstd::prelude::*;

verus! {

/// The value of a hexadecimal digit.
pub open spec fn nibble_value(c: char) -> Option<u8> {
    if '0' <= c && c <= '9' {
        Some((c as u8 - 48) as u8)
    } else if 'a' <= c && c <= 'f' {
        Some((c as u8 - 87) as u8)
    } else if 'A' <= c && c <= 'F' {
        Some((c as u8 - 55) as u8)
    } else {
        None
    }
}

/// The small hexadecimal digit of a value below sixteen.
pub open spec fn hex_digit(n: u8) -> char {
    if n < 10 {
        (48 + n) as char
    } else {
        (87 + n) as char
    }
}

/// The small hexadecimal digits of several bytes.
pub open spec fn hex_text(bytes: Seq<u8>) -> Seq<char> {
    Seq::new(
        2 * bytes.len(),
        |i: int| hex_digit(
            if i % 2 == 0 {
                bytes[i / 2] / 16
            } else {
                bytes[i / 2] % 16
            },
        ),
    )
}

/// The byte that the digits at `2 * i` and `2 * i + 1` denote.
pub open spec fn byte_at(s: Seq<char>, i: int) -> u8 {
    (nibble_value(s[2 * i])->0 * 16 + nibble_value(s[2 * i + 1])->0) as u8
}

/// The identity that a text of sixty-four hexadecimal digits denotes.
pub open spec fn parsed_id(s: Seq<char>) -> Option<Seq<u8>> {
    if s.len() == 64 && forall|i: int| 0 <= i < 64 ==> nibble_value(#[trigger] s[i]) is Some {
        Some(Seq::new(32, |i: int| byte_at(s, i)))
    } else {
        None
    }
}

/// Hexadecimal digits count in either case, and sixty-four of them make
/// an identity, no more and no fewer.
pub proof fn digits_count_in_either_case(c: char, s: Seq<char>)
    ensures
        'a' <= c <= 'f' ==> nibble_value(c) is Some && nibble_value(c)->0 == 10 + (c as int
            - 'a' as int) && nibble_value(((c as u32) - 32) as char) == nibble_value(c),
        '0' <= c <= '9' ==> nibble_value(c) is Some && nibble_value(c)->0 == c as int - '0' as int,
        c == 'g' || c == 'G' || c == '/' || c == ':' || c == '@' || c == '`' ==> nibble_value(
            c,
        ) is None,
        s.len() != 64 ==> parsed_id(s) is None,
        parsed_id(s) is Some ==> parsed_id(s)->0.len() == 32,
{
}

/// The hexadecimal text of an identity denotes that identity.
pub proof fn hex_round_trip(id: Seq<u8>)
    requires
        id.len() == 32,
    ensures
        parsed_id(hex_text(id)) == Some(id),
{
    let s = hex_text(id);
    assert forall|i: int| 0 <= i < 64 implies nibble_value(#[trigger] s[i]) is Some by {}
    assert forall|i: int| 0 <= i < 32 implies byte_at(s, i) == id[i] by {
        assert((2 * i) % 2 == 0 && (2 * i) / 2 == i);
        assert((2 * i + 1) % 2 == 1 && (2 * i + 1) / 2 == i);
        assert(s[2 * i] == hex_digit(id[i] / 16));
        assert(s[2 * i + 1] == hex_digit(id[i] % 16));
    }
    assert(Seq::new(32, |i: int| byte_at(s, i)) =~= id);
}

/// Different identities have different hexadecimal texts.
pub proof fn hex_is_injective(a: Seq<u8>, b: Seq<u8>)
    requires
        a.len() == 32,
        b.len() == 32,
        hex_text(a) == hex_text(b),
    ensures
        a == b,
{
    hex_round_trip(a);
    hex_round_trip(b);
}

/// The value of a hexadecimal digit.
pub fn nibble(c: char) -> (r: Option<u8>)
    ensures
        r == nibble_value(c),
{
    if '0' <= c && c <= '9' {
        Some(c as u8 - 48)
    } else if 'a' <= c && c <= 'f' {
        Some(c as u8 - 87)
    } else if 'A' <= c && c <= 'F' {
        Some(c as u8 - 55)
    } else {
        None
    }
}

/// The identity that `s` denotes: sixty-four hexadecimal digits, in
/// either case. `None` for any other text.
pub fn parse_doc_id(s: &str) -> (r: Option<DocId>)
    ensures
        parsed_id(s@) == (match r {
            Some(id) => Some(id@),
            None => None,
        }),
{
    let cs: Vec<char> = chars_of(s);
    if cs.len() != 64 {
        return None;
    }
    let mut bytes: [u8; 32] = [0;32];
    let mut i: usize = 0;
    while i < 32
        invariant
            i <= 32,
            cs@ == s@,
            cs@.len() == 64,
            forall|j: int| 0 <= j < 2 * i ==> nibble_value(#[trigger] s@[j]) is Some,
            forall|j: int| 0 <= j < i ==> #[trigger] bytes@[j] == byte_at(s@, j),
        decreases 32 - i,
    {
        let hi: u8 = match nibble(cs[2 * i]) {
            Some(n) => n,
            None => {
                proof {
                    assert(nibble_value(s@[2 * i]) is None);
                }
                return None;
            },
        };
        let lo: u8 = match nibble(cs[2 * i + 1]) {
            Some(n) => n,
            None => {
                proof {
                    assert(nibble_value(s@[2 * i + 1]) is None);
                }
                return None;
            },
        };
        bytes[i] = hi * 16 + lo;
        proof {
            assert forall|j: int| 0 <= j < 2 * (i + 1) implies nibble_value(
                #[trigger] s@[j],
            ) is Some by {
                if j >= 2 * i {
                    assert(j == 2 * i || j == 2 * i + 1);
                }
            }
        }
        i += 1;
    }
    let id: DocId = DocId(bytes);
    proof {
        assert(id@ =~= Seq::new(32, |j: int| byte_at(s@, j)));
    }
    Some(id)
}

/// The hexadecimal text of an identity, in small letters.
pub fn hex_of(id: &DocId) -> (r: String)
    ensures
        r@ == hex_text(id@),
{
    let mut r: String = String::new();
    let mut i: usize = 0;
    while i < 64
        invariant
            i <= 64,
            r@ =~= hex_text(id@).take(i as int),
        decreases 64 - i,
    {
        let b: u8 = id.0[i / 2];
        let n: u8 = if i % 2 == 0 {
            b / 16
        } else {
            b % 16
        };
        let c: char = if n < 10 {
            (48 + n) as char
        } else {
            (87 + n) as char
        };
        proof {
            assert(hex_text(id@)[i as int] == c);
            assert(hex_text(id@).take(i + 1) =~= hex_text(id@).take(i as int).push(c));
        }
        r.push(c);
        i += 1;
    }
    proof {
        assert(hex_text(id@).take(64) =~= hex_text(id@));
    }
    r
}

} // verus!
