//! Content identity: a 32-byte digest of a file's bytes, and its textual
//! (hexadecimal) form.

use vstd::prelude::*;
use crate::text::{chars_of, string_of};

verus! {

/// Number of bytes in an identity.
pub const ID_LEN: usize = 32;

/// Number of characters in the textual form of an identity.
pub const HEX_LEN: usize = 64;

/// The BLAKE3 digest of `input` (32 bytes), as computed by `blake3::hash`.
pub uninterp spec fn blake3_digest(input: Seq<u8>) -> Seq<u8>;

/// Calls `blake3::hash` and copies the 32 digest bytes out of the returned
/// `blake3::Hash`. The digest depends on the input bytes alone.
#[verifier::external_body]
fn blake3_hash(input: &[u8]) -> (out: [u8; 32])
    ensures
        out@ == blake3_digest(input@),
{
    *blake3::hash(input).as_bytes()
}

/// The lower-case hexadecimal digit for a value below 16.
pub open spec fn hex_digit(n: int) -> char {
    if n < 10 {
        (n + '0' as int) as char
    } else {
        (n - 10 + 'a' as int) as char
    }
}

/// The value of a hexadecimal digit of either case; `None` for any other
/// character.
pub open spec fn hex_value(c: char) -> Option<int> {
    if '0' <= c <= '9' {
        Some(c as int - '0' as int)
    } else if 'a' <= c <= 'f' {
        Some(c as int - 'a' as int + 10)
    } else if 'A' <= c <= 'F' {
        Some(c as int - 'A' as int + 10)
    } else {
        None
    }
}

/// Two lower-case hexadecimal digits per byte, high nibble first.
pub open spec fn hex_encode(bytes: Seq<u8>) -> Seq<char> {
    Seq::new(
        2 * bytes.len(),
        |i: int| if i % 2 == 0 { hex_digit(bytes[i / 2] as int / 16) } else { hex_digit(bytes[i / 2] as int % 16) },
    )
}

/// Every character of `s` is a hexadecimal digit.
pub open spec fn is_hex(s: Seq<char>) -> bool {
    forall|i: int| 0 <= i < s.len() ==> (#[trigger] hex_value(s[i])) is Some
}

/// The bytes spelled by a sequence of hexadecimal digits, two per byte.
pub open spec fn hex_decode(s: Seq<char>) -> Seq<u8> {
    Seq::new(
        s.len() / 2,
        |i: int| (16 * hex_value(s[2 * i]).unwrap() + hex_value(s[2 * i + 1]).unwrap()) as u8,
    )
}

/// `s` is the textual form of some identity: 64 hexadecimal digits.
pub open spec fn is_identity_text(s: Seq<char>) -> bool {
    s.len() == HEX_LEN && is_hex(s)
}

/// Why a text is not the textual form of an identity.
#[derive(Debug, Clone, Copy, PartialEq, Eq, Structural)]
pub enum MalformedIdentity {
    /// The text does not have exactly 64 characters.
    WrongLength,
    /// The text has 64 characters, one of which is no hexadecimal digit.
    NotHex,
}

/// Identity of a track: the digest of the bytes of a music file.
///
/// Two files have the same identity exactly when their contents hash to the
/// same digest, whatever their names or locations.
#[derive(Debug, Clone, Copy, Hash)]
pub struct TrackId(pub [u8; 32]);

impl View for TrackId {
    type V = Seq<u8>;

    open spec fn view(&self) -> Seq<u8> {
        self.0@
    }
}

impl PartialEq for TrackId {
    fn eq(&self, other: &TrackId) -> (r: bool) {
        let mut i: usize = 0;
        while i < 32
            invariant
                i <= 32,
                forall|j: int| 0 <= j < i ==> self.0[j] == other.0[j],
            decreases 32 - i,
        {
            if self.0[i] != other.0[i] {
                return false;
            }
            i += 1;
        }
        assert(self.0 =~= other.0);
        true
    }
}

impl Eq for TrackId {}

impl vstd::std_specs::cmp::PartialEqSpecImpl for TrackId {
    open spec fn obeys_eq_spec() -> bool {
        true
    }

    open spec fn eq_spec(&self, other: &TrackId) -> bool {
        self@ == other@
    }
}

/// The character for a value below 16.
fn digit_char(n: u8) -> (c: char)
    requires
        n < 16,
    ensures
        c == hex_digit(n as int),
{
    if n < 10 {
        (n + 48) as char
    } else {
        (n + 87) as char
    }
}

/// The value of a hexadecimal digit, if `c` is one.
fn digit_value(c: char) -> (v: Option<u8>)
    ensures
        v is Some <==> hex_value(c) is Some,
        v matches Some(n) ==> n < 16 && n as int == hex_value(c).unwrap(),
{
    if '0' <= c && c <= '9' {
        Some((c as u32 - '0' as u32) as u8)
    } else if 'a' <= c && c <= 'f' {
        Some((c as u32 - 'a' as u32 + 10) as u8)
    } else if 'A' <= c && c <= 'F' {
        Some((c as u32 - 'A' as u32 + 10) as u8)
    } else {
        None
    }
}

impl TrackId {
    /// The identity of a file with the given contents.
    pub fn from_bytes(bytes: &[u8]) -> (id: TrackId)
        ensures
            id@ == blake3_digest(bytes@),
    {
        TrackId(blake3_hash(bytes))
    }

    /// The textual form: 64 lower-case hexadecimal digits.
    pub fn to_hex(&self) -> (hex: String)
        ensures
            hex@ == hex_encode(self@),
    {
        let mut out: Vec<char> = Vec::new();
        let mut i: usize = 0;
        while i < 32
            invariant
                i <= 32,
                out@.len() == 2 * i,
                forall|k: int| 0 <= k < 2 * i ==> out@[k] == hex_encode(self@)[k],
            decreases 32 - i,
        {
            let b = self.0[i];
            out.push(digit_char(b / 16));
            out.push(digit_char(b % 16));
            i += 1;
        }
        assert(out@ =~= hex_encode(self@));
        string_of(&out)
    }

    /// Reads the textual form of an identity, in either case.
    pub fn from_hex(hex: &str) -> (r: Result<TrackId, MalformedIdentity>)
        ensures
            r is Ok <==> is_identity_text(hex@),
            r matches Ok(id) ==> id@ == hex_decode(hex@),
            r matches Err(e) ==> (e == MalformedIdentity::WrongLength <==> hex@.len() != HEX_LEN),
    {
        let chars = chars_of(hex);
        if chars.len() != 64 {
            return Err(MalformedIdentity::WrongLength);
        }
        let mut bytes: [u8; 32] = [0u8; 32];
        let mut i: usize = 0;
        while i < 32
            invariant
                i <= 32,
                chars@ == hex@,
                chars@.len() == 64,
                forall|k: int| 0 <= k < 2 * i ==> (#[trigger] hex_value(chars@[k])) is Some,
                forall|k: int| 0 <= k < i ==> (#[trigger] bytes@[k]) == hex_decode(hex@)[k],
            decreases 32 - i,
        {
            let hi = digit_value(chars[2 * i]);
            let lo = digit_value(chars[2 * i + 1]);
            match (hi, lo) {
                (Some(h), Some(l)) => {
                    bytes[i] = 16 * h + l;
                },
                _ => {
                    return Err(MalformedIdentity::NotHex);
                },
            }
            i += 1;
        }
        let id = TrackId(bytes);
        assert(id@ =~= hex_decode(hex@));
        Ok(id)
    }
}

/// Equal contents have equal identities.
pub proof fn lemma_identity_deterministic(b1: Seq<u8>, b2: Seq<u8>)
    requires
        b1 == b2,
    ensures
        blake3_digest(b1) == blake3_digest(b2),
{
}

/// The textual form of an identity is accepted by the reader, which gives
/// back the same bytes.
pub proof fn lemma_hex_round_trip(bytes: Seq<u8>)
    requires
        bytes.len() == ID_LEN,
    ensures
        is_identity_text(hex_encode(bytes)),
        hex_decode(hex_encode(bytes)) == bytes,
{
    let s = hex_encode(bytes);
    assert forall|i: int| 0 <= i < s.len() implies (#[trigger] hex_value(s[i])) is Some by {
        lemma_digit_round_trip(bytes[i / 2] as int / 16);
        lemma_digit_round_trip(bytes[i / 2] as int % 16);
    }
    assert forall|i: int| 0 <= i < bytes.len() implies hex_decode(s)[i] == bytes[i] by {
        lemma_digit_round_trip(bytes[i] as int / 16);
        lemma_digit_round_trip(bytes[i] as int % 16);
        assert((2 * i) / 2 == i && (2 * i) % 2 == 0);
        assert((2 * i + 1) / 2 == i && (2 * i + 1) % 2 == 1);
    }
    assert(hex_decode(s) =~= bytes);
}

/// A digit's value is the number it was made from.
pub proof fn lemma_digit_round_trip(n: int)
    requires
        0 <= n < 16,
    ensures
        hex_value(hex_digit(n)) == Some(n),
{
}

} // verus!
