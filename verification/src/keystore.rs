//! Persistent form of a member's secret note `(k, r)`.
//!
//! The note is the only secret a member must keep; losing it costs the
//! ability to propose, never funds. It is stored as lowercase hex of the
//! little-endian field encodings.
use crate::field::{from_bytes_le, le_value, modulus, to_bytes_le, F};
use crate::note::Note;
use vstd::prelude::*;

verus! {

/// The lowercase hex digit of a value below 16.
pub open spec fn hex_char(v: nat) -> char {
    if v < 10 {
        (48 + v) as char
    } else {
        (87 + v) as char
    }
}

/// Lowercase hex of a byte string, high nibble first.
pub open spec fn hex_lower(bytes: Seq<u8>) -> Seq<char> {
    Seq::new(
        2 * bytes.len(),
        |i: int|
            if i % 2 == 0 {
                hex_char((bytes[i / 2] / 16) as nat)
            } else {
                hex_char((bytes[i / 2] % 16) as nat)
            },
    )
}

/// The value of a hex digit (either case), if `c` is one.
pub open spec fn hex_digit_value(c: char) -> Option<nat> {
    let n = c as u32;
    if 48 <= n <= 57 {
        Some((n - 48) as nat)
    } else if 97 <= n <= 102 {
        Some((n - 87) as nat)
    } else if 65 <= n <= 70 {
        Some((n - 55) as nat)
    } else {
        None
    }
}

/// `s` is an even number of hex digits.
pub open spec fn is_hex_string(s: Seq<char>) -> bool {
    &&& s.len() % 2 == 0
    &&& forall|i: int| 0 <= i < s.len() ==> (#[trigger] hex_digit_value(s[i])) is Some
}

/// The bytes an even-length hex string denotes.
pub open spec fn hex_decoded(s: Seq<char>) -> Seq<u8> {
    Seq::new(
        s.len() / 2,
        |i: int|
            (hex_digit_value(s[2 * i]).unwrap() * 16 + hex_digit_value(s[2 * i + 1]).unwrap()) as u8,
    )
}

/// Calls `hex::encode`, which writes each byte as two lowercase hex digits,
/// high nibble first (its documentation and source show exactly this).
#[verifier::external_body]
fn hex_encode(bytes: &[u8]) -> (s: String)
    ensures
        s@ == hex_lower(bytes@),
{
    hex::encode(bytes)
}

/// Calls `hex::decode`, which fails on an odd length or on a byte that is not
/// a hex digit of either case, and otherwise pairs up digits high nibble
/// first. On a string of ASCII characters its bytes are its characters; a
/// non-ASCII character makes some byte a non-digit, so the call fails exactly
/// when `is_hex_string` does not hold. The error's kind is not kept.
#[verifier::external_body]
fn hex_decode(s: &str) -> (r: Option<Vec<u8>>)
    ensures
        r is Some <==> is_hex_string(s@),
        r matches Some(v) ==> v@ == hex_decoded(s@),
{
    hex::decode(s).ok()
}

/// Why a stored note could not be read back.
#[derive(Clone, Copy, Debug, PartialEq, Eq, Structural)]
pub enum KeystoreError {
    /// A field is not an even-length hex string.
    InvalidHex,
    /// A field decodes to the given number of bytes instead of 32.
    WrongLength(usize),
    /// A field decodes to 32 bytes that are not a canonical field element.
    NonCanonical,
}

/// What decoding one stored field gives: the canonical encoding, or the
/// first check that fails.
pub open spec fn decode_field_spec(s: Seq<char>) -> Result<Seq<u8>, KeystoreError> {
    if !is_hex_string(s) {
        Err(KeystoreError::InvalidHex)
    } else if hex_decoded(s).len() != 32 {
        Err(KeystoreError::WrongLength((s.len() / 2) as usize))
    } else if le_value(hex_decoded(s)) >= modulus() {
        Err(KeystoreError::NonCanonical)
    } else {
        Ok(hex_decoded(s))
    }
}

/// On-disk representation of a membership note.
#[derive(Clone, Debug)]
pub struct Keystore {
    /// Nullifier secret `k`, hex of 32 little-endian bytes.
    pub k: String,
    /// Commitment randomness `r`, hex of 32 little-endian bytes.
    pub r: String,
}

fn decode_field(hexstr: &str) -> (r: Result<F, KeystoreError>)
    ensures
        match r {
            Ok(x) => decode_field_spec(hexstr@) == Ok::<Seq<u8>, KeystoreError>(x@),
            Err(e) => decode_field_spec(hexstr@) == Err::<Seq<u8>, KeystoreError>(e),
        },
{
    let bytes = match hex_decode(hexstr) {
        Some(b) => b,
        None => {
            return Err(KeystoreError::InvalidHex);
        },
    };
    if bytes.len() != 32 {
        return Err(KeystoreError::WrongLength(bytes.len()));
    }
    let mut arr = [0u8; 32];
    let mut i: usize = 0;
    while i < 32
        invariant
            i <= 32,
            bytes@.len() == 32,
            arr@.len() == 32,
            forall|j: int| 0 <= j < i ==> arr@[j] == bytes@[j],
        decreases 32 - i,
    {
        arr[i] = bytes[i];
        i = i + 1;
    }
    proof {
        assert(arr@ =~= bytes@);
    }
    match from_bytes_le(&arr) {
        Some(x) => Ok(x),
        None => Err(KeystoreError::NonCanonical),
    }
}

impl Keystore {
    /// Serialize a note.
    pub fn from_note(note: &Note) -> (ks: Keystore)
        ensures
            ks.k@ == hex_lower(note.k@),
            ks.r@ == hex_lower(note.r@),
    {
        let k = to_bytes_le(&note.k);
        let r = to_bytes_le(&note.r);
        Keystore { k: hex_encode(k.as_slice()), r: hex_encode(r.as_slice()) }
    }

    /// Recover the note: `k` is read first, then `r`; the first failure is
    /// reported.
    pub fn to_note(&self) -> (res: Result<Note, KeystoreError>)
        ensures
            match res {
                Ok(note) => {
                    &&& decode_field_spec(self.k@) == Ok::<Seq<u8>, KeystoreError>(note.k@)
                    &&& decode_field_spec(self.r@) == Ok::<Seq<u8>, KeystoreError>(note.r@)
                },
                Err(e) => decode_field_spec(self.k@) == Err::<Seq<u8>, KeystoreError>(e) || (
                decode_field_spec(self.k@) is Ok && decode_field_spec(self.r@) == Err::<
                    Seq<u8>,
                    KeystoreError,
                >(e)),
            },
    {
        let k = decode_field(self.k.as_str())?;
        let r = decode_field(self.r.as_str())?;
        Ok(Note::new(k, r))
    }
}

/// Hex of a valid element decodes back to its encoding.
pub proof fn lemma_hex_roundtrip(bytes: Seq<u8>)
    ensures
        is_hex_string(hex_lower(bytes)),
        hex_decoded(hex_lower(bytes)) == bytes,
{
    let s = hex_lower(bytes);
    assert forall|i: int| 0 <= i < s.len() implies (#[trigger] hex_digit_value(s[i])) is Some by {
        let b = bytes[i / 2];
        assert(b / 16 < 16);
    }
    assert forall|i: int| 0 <= i < bytes.len() implies hex_decoded(s)[i] == bytes[i] by {
        let b = bytes[i];
        assert(s[2 * i] == hex_char((b / 16) as nat));
        assert(s[2 * i + 1] == hex_char((b % 16) as nat));
        assert((b / 16) * 16 + b % 16 == b);
    }
    assert(hex_decoded(s) =~= bytes);
}

/// A keystore written from a note reads back as that same note (for notes
/// whose secrets are valid field elements, which every run-time note is):
/// both stored secrets decode to their own encodings, and the only note
/// with those encodings is that note itself.
pub proof fn law_keystore_roundtrip(note: Note)
    requires
        note.k.inv(),
        note.r.inv(),
    ensures
        decode_field_spec(hex_lower(note.k@)) == Ok::<Seq<u8>, KeystoreError>(note.k@),
        decode_field_spec(hex_lower(note.r@)) == Ok::<Seq<u8>, KeystoreError>(note.r@),
        forall|n: Note| n.k@ == note.k@ && n.r@ == note.r@ ==> n == note,
{
    lemma_field_roundtrip(note.k);
    lemma_field_roundtrip(note.r);
    assert forall|n: Note| n.k@ == note.k@ && n.r@ == note.r@ implies n == note by {
        F::lemma_view_eq(n.k, note.k);
        F::lemma_view_eq(n.r, note.r);
    }
}

/// One stored secret reads back as its own encoding.
proof fn lemma_field_roundtrip(x: F)
    requires
        x.inv(),
    ensures
        decode_field_spec(hex_lower(x@)) == Ok::<Seq<u8>, KeystoreError>(x@),
{
    lemma_hex_roundtrip(x@);
    x.lemma_canonical_view();
}

} // verus!
