//! Content identifiers: fixed 20-byte opaque binary keys, conventionally
//! rendered as 40 lowercase hex characters.  Malformed hex is rejected
//! before an identifier can exist.

use vstd::prelude::*;
use crate::codec::ID_LEN;
use crate::text::{lowercased, unicode_lowercase, before_char, find_str, matches_at, spec_before};

verus! {

/// Whether `c` is an ASCII hex digit, either case.
pub open spec fn is_hex_digit(c: char) -> bool {
    ('0' <= c && c <= '9') || ('a' <= c && c <= 'f') || ('A' <= c && c <= 'F')
}

/// Numeric value of a hex digit.
pub open spec fn hex_digit_val(c: char) -> int {
    if '0' <= c && c <= '9' {
        c as int - '0' as int
    } else if 'a' <= c && c <= 'f' {
        c as int - 'a' as int + 10
    } else if 'A' <= c && c <= 'F' {
        c as int - 'A' as int + 10
    } else {
        0
    }
}

/// The bytes denoted by a hex string, one per digit pair, high nibble
/// first.
pub open spec fn hex_bytes_of(s: Seq<char>) -> Seq<u8> {
    Seq::new(
        (s.len() / 2) as nat,
        |i: int| (hex_digit_val(s[2 * i]) * 16 + hex_digit_val(s[2 * i + 1])) as u8,
    )
}

/// The lowercase hex digit character for a value below sixteen.
pub open spec fn hex_char_of(v: int) -> char {
    if v < 10 {
        ('0' as int + v) as char
    } else {
        ('a' as int + v - 10) as char
    }
}

/// The lowercase hex rendering of a byte sequence, two digits per byte.
pub open spec fn hex_str_of(b: Seq<u8>) -> Seq<char> {
    Seq::new(
        2 * b.len(),
        |i: int|
            if i % 2 == 0 {
                hex_char_of(b[i / 2] as int / 16)
            } else {
                hex_char_of(b[i / 2] as int % 16)
            },
    )
}

/// Relies on hex::decode: `Ok` exactly on an even-length string of ASCII
/// hex digits, yielding one byte per digit pair, high nibble first; any
/// other input is an error, mapped to `None` here.
#[verifier::external_body]
fn hex_decode(s: &str) -> (r: Option<Vec<u8>>)
    ensures
        r is Some <==> (s@.len() % 2 == 0 && forall|i: int|
            0 <= i < s@.len() ==> is_hex_digit(#[trigger] s@[i])),
        r is Some ==> r->Some_0@ == hex_bytes_of(s@),
{
    match hex::decode(s) {
        Ok(v) => Some(v),
        Err(_) => None,
    }
}

/// Relies on hex::encode: two lowercase hex digits per byte.
#[verifier::external_body]
fn hex_encode(b: &Vec<u8>) -> (r: String)
    ensures
        r@ == hex_str_of(b@),
{
    hex::encode(b)
}

/// A syntactically valid identifier rendering: exactly 40 hex digits.
pub open spec fn is_valid_hex_id(s: Seq<char>) -> bool {
    s.len() == 2 * ID_LEN && forall|i: int| 0 <= i < s.len() ==> is_hex_digit(#[trigger] s[i])
}

/// Tests whether `s` is a syntactically valid identifier rendering.
pub fn is_valid_hex_id_exec(s: &str) -> (r: bool)
    ensures
        r == is_valid_hex_id(s@),
{
    let n: usize = s.unicode_len();
    if n != 2 * ID_LEN {
        return false;
    }
    let mut i: usize = 0;
    while i < n
        invariant
            n == s@.len(),
            i <= n,
            forall|j: int| 0 <= j < i ==> is_hex_digit(#[trigger] s@[j]),
        decreases n - i,
    {
        let c = s.get_char(i);
        let ok = (c >= '0' && c <= '9') || (c >= 'a' && c <= 'f') || (c >= 'A' && c <= 'F');
        if !ok {
            proof {
                assert(!is_hex_digit(s@[i as int]));
            }
            return false;
        }
        i = i + 1;
    }
    true
}

/// A fixed 20-byte content identifier, compared by exact byte equality.
pub struct InfoHash {
    bytes: Vec<u8>,
}

impl View for InfoHash {
    type V = Seq<u8>;

    closed spec fn view(&self) -> Seq<u8> {
        self.bytes@
    }
}

impl InfoHash {
    /// An identifier always holds exactly 20 bytes.
    pub open spec fn wf(self) -> bool {
        self@.len() == ID_LEN
    }

    /// Decodes a 40-digit hex rendering; rejects anything else.
    pub fn from_hex(s: &str) -> (r: Option<InfoHash>)
        ensures
            r is Some <==> is_valid_hex_id(s@),
            r is Some ==> r->Some_0@ == hex_bytes_of(s@) && r->Some_0.wf(),
    {
        match hex_decode(s) {
            Some(b) => {
                if b.len() == ID_LEN {
                    Some(InfoHash { bytes: b })
                } else {
                    None
                }
            },
            None => None,
        }
    }

    /// The identifier's bytes.
    pub fn as_bytes(&self) -> (r: &Vec<u8>)
        ensures
            r@ == self@,
    {
        &self.bytes
    }

    /// The conventional lowercase hex rendering.
    pub fn to_hex(&self) -> (r: String)
        ensures
            r@ == hex_str_of(self@),
    {
        hex_encode(&self.bytes)
    }

    /// An identical copy of the identifier.
    pub fn duplicate(&self) -> (r: InfoHash)
        ensures
            r@ == self@,
    {
        let mut b: Vec<u8> = Vec::new();
        let mut i: usize = 0;
        let n: usize = self.bytes.len();
        while i < n
            invariant
                n == self.bytes@.len(),
                i <= n,
                b@ == self.bytes@.take(i as int),
            decreases n - i,
        {
            b.push(self.bytes[i]);
            proof {
                assert(b@ =~= self.bytes@.take(i + 1));
            }
            i = i + 1;
        }
        proof {
            assert(self.bytes@.take(n as int) =~= self.bytes@);
        }
        InfoHash { bytes: b }
    }
}

/// The identifier tag of a magnet link.
pub open spec fn btih_tag() -> Seq<char> {
    "xt=urn:btih:"@
}

/// Extracts the identifier rendering from a magnet link: the text after
/// the first `xt=urn:btih:` tag, cut at the first `&`, in Unicode
/// lowercase.  Yields nothing when the tag does not occur.
pub fn extract_infohash_from_magnet(magnet: &str) -> (r: Option<String>)
    ensures
        r is Some <==> exists|j: int| matches_at(magnet@, btih_tag(), j),
        r is Some ==> exists|j: int|
            {
                &&& #[trigger] matches_at(magnet@, btih_tag(), j)
                &&& forall|q: int| 0 <= q < j ==> !matches_at(magnet@, btih_tag(), q)
                &&& r->Some_0@ == lowercased(
                    spec_before(magnet@.skip(j + btih_tag().len()), '&'),
                )
            },
{
    let tag = "xt=urn:btih:";
    proof {
        assert(tag@ == btih_tag());
    }
    match find_str(magnet, tag) {
        Some(i) => {
            let n: usize = magnet.unicode_len();
            let m: usize = tag.unicode_len();
            let rest = magnet.substring_char(i + m, n);
            proof {
                assert(rest@ =~= magnet@.skip(i + m));
                assert(matches_at(magnet@, btih_tag(), i as int));
            }
            let piece = before_char(rest, '&');
            let lowered = unicode_lowercase(piece.as_str());
            Some(lowered)
        },
        None => None,
    }
}

} // verus!
