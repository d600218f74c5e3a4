//! The 4-byte record type code: four ASCII letters whose casing encodes
//! per-byte flags (criticality, scope, reserved validity, copy-safety).

use vstd::prelude::*;
use vstd::string::StringSliceAdditionalSpecFns;
use vstd::utf8::decode_utf8;
use crate::error::PngError;
use crate::text::{lemma_ascii_bytes_valid_utf8, utf8_to_text};

verus! {

/// True when `b` is an ASCII letter. The ranges are inclusive on both
/// ends, a deliberate choice: `A`, `Z`, `a` and `z` are letters.
pub open spec fn is_letter_byte(b: u8) -> bool {
    (0x41 <= b && b <= 0x5a) || (0x61 <= b && b <= 0x7a)
}

/// True when every byte of the sequence is an ASCII letter.
pub open spec fn all_letters(s: Seq<u8>) -> bool {
    forall|i: int| 0 <= i < s.len() ==> is_letter_byte(#[trigger] s[i])
}

/// Criticality flag of a raw type code: bit 5 of byte 0 is clear (the
/// byte is uppercase).
pub open spec fn spec_critical(s: Seq<u8>) -> bool
    recommends
        s.len() == 4,
{
    (s[0] >> 5) & 1 == 0
}

/// Scope flag of a raw type code: bit 5 of byte 1 is clear.
pub open spec fn spec_public(s: Seq<u8>) -> bool
    recommends
        s.len() == 4,
{
    (s[1] >> 5) & 1 == 0
}

/// Reserved flag of a raw type code: bit 5 of byte 2 is clear.
pub open spec fn spec_reserved_bit_valid(s: Seq<u8>) -> bool
    recommends
        s.len() == 4,
{
    (s[2] >> 5) & 1 == 0
}

/// Copy-safety flag of a raw type code: bit 5 of byte 3 is set (the
/// byte is lowercase).
pub open spec fn spec_safe_to_copy(s: Seq<u8>) -> bool
    recommends
        s.len() == 4,
{
    (s[3] >> 5) & 1 == 1
}

/// Validity of a raw type code: the reserved bit must be clear, and the
/// code must not be both critical and safe to copy.
pub open spec fn spec_type_valid(s: Seq<u8>) -> bool
    recommends
        s.len() == 4,
{
    spec_reserved_bit_valid(s) && !(spec_critical(s) && spec_safe_to_copy(s))
}

/// A 4-byte type code. Immutable once constructed; both constructors
/// admit exactly the byte sequences whose bytes are all ASCII letters.
#[derive(Debug, PartialEq, Eq)]
pub struct ChunkType {
    bytes: [u8; 4],
}

impl View for ChunkType {
    type V = Seq<u8>;

    closed spec fn view(&self) -> Seq<u8> {
        self.bytes@
    }
}

impl ChunkType {
    /// Well-formedness: four bytes, all ASCII letters. Both constructors
    /// establish it; no other way to build a `ChunkType` exists.
    pub open spec fn wf(self) -> bool {
        self@.len() == 4 && all_letters(self@)
    }

    /// Criticality flag: bit 5 of byte 0 is clear (the byte is
    /// uppercase).
    pub open spec fn spec_is_critical(self) -> bool {
        spec_critical(self@)
    }

    /// Scope flag: bit 5 of byte 1 is clear.
    pub open spec fn spec_is_public(self) -> bool {
        spec_public(self@)
    }

    /// Reserved flag: bit 5 of byte 2 is clear.
    pub open spec fn spec_is_reserved_bit_valid(self) -> bool {
        spec_reserved_bit_valid(self@)
    }

    /// Copy-safety flag: bit 5 of byte 3 is set (the byte is lowercase).
    pub open spec fn spec_is_safe_to_copy(self) -> bool {
        spec_safe_to_copy(self@)
    }

    /// Validity: the reserved bit must be clear, and a type must not be
    /// both critical and safe to copy.
    pub open spec fn spec_is_valid(self) -> bool {
        spec_type_valid(self@)
    }

    /// The view of any type code holds exactly four bytes: the code is
    /// stored as a 4-byte array.
    pub proof fn lemma_view_len(&self)
        ensures
            self@.len() == 4,
    {
    }

    /// True when `b` is an ASCII letter.
    fn is_letter(b: u8) -> (r: bool)
        ensures
            r == is_letter_byte(b),
    {
        (b >= 0x41 && b <= 0x5a) || (b >= 0x61 && b <= 0x7a)
    }

    /// Builds a type code from four raw bytes. Succeeds exactly when all
    /// four are ASCII letters; no validity check is made here.
    pub fn try_from(bytes: [u8; 4]) -> (r: Result<ChunkType, PngError>)
        ensures
            r is Ok <==> all_letters(bytes@),
            r matches Ok(t) ==> t@ == bytes@ && t.wf(),
            r matches Err(e) ==> e == PngError::NotAllLetters,
    {
        let mut i: usize = 0;
        while i < 4
            invariant
                i <= 4,
                forall|j: int| 0 <= j < i ==> is_letter_byte(#[trigger] bytes@[j]),
            decreases 4 - i,
        {
            if !Self::is_letter(bytes[i]) {
                return Err(PngError::NotAllLetters);
            }
            i = i + 1;
        }
        Ok(ChunkType { bytes })
    }

    /// Builds a type code from text: exactly 4 bytes, all ASCII letters.
    pub fn from_str(s: &str) -> (r: Result<ChunkType, PngError>)
        ensures
            r is Ok <==> s.spec_bytes().len() == 4 && all_letters(s.spec_bytes()),
            r matches Ok(t) ==> t@ == s.spec_bytes() && t.wf(),
            s.spec_bytes().len() != 4 ==> r == Err::<ChunkType, PngError>(PngError::WrongLength),
            s.spec_bytes().len() == 4 && !all_letters(s.spec_bytes()) ==> r == Err::<
                ChunkType,
                PngError,
            >(PngError::NotAllLetters),
    {
        let b = s.as_bytes();
        if b.len() != 4 {
            return Err(PngError::WrongLength);
        }
        let bytes: [u8; 4] = [b[0], b[1], b[2], b[3]];
        proof {
            assert(bytes@ =~= s.spec_bytes());
        }
        Self::try_from(bytes)
    }

    /// The raw bytes of the type code.
    pub fn bytes(&self) -> (r: [u8; 4])
        ensures
            r@ == self@,
    {
        self.bytes
    }

    /// True when the type is critical: bit 5 of byte 0 is clear.
    pub fn is_critical(&self) -> (r: bool)
        ensures
            r == self.spec_is_critical(),
    {
        let first = self.bytes[0];
        (first >> 5) & 1 == 0
    }

    /// True when the type is public: bit 5 of byte 1 is clear.
    pub fn is_public(&self) -> (r: bool)
        ensures
            r == self.spec_is_public(),
    {
        let second = self.bytes[1];
        (second >> 5) & 1 == 0
    }

    /// True when the reserved bit is clear: bit 5 of byte 2 is 0.
    pub fn is_reserved_bit_valid(&self) -> (r: bool)
        ensures
            r == self.spec_is_reserved_bit_valid(),
    {
        let third = self.bytes[2];
        (third >> 5) & 1 == 0
    }

    /// True when the type is safe to copy: bit 5 of byte 3 is set.
    pub fn is_safe_to_copy(&self) -> (r: bool)
        ensures
            r == self.spec_is_safe_to_copy(),
    {
        let fourth = self.bytes[3];
        (fourth >> 5) & 1 == 1
    }

    /// True exactly when the reserved bit is clear and the type is not
    /// both critical and safe to copy.
    pub fn is_valid(&self) -> (r: bool)
        ensures
            r == self.spec_is_valid(),
    {
        self.is_reserved_bit_valid() && !(self.is_critical() && self.is_safe_to_copy())
    }

    /// The four bytes reinterpreted as text; always succeeds since all
    /// bytes are ASCII letters.
    pub fn to_text(&self) -> (r: String)
        requires
            self.wf(),
        ensures
            r@ == decode_utf8(self@),
    {
        let mut v: Vec<u8> = Vec::new();
        v.push(self.bytes[0]);
        v.push(self.bytes[1]);
        v.push(self.bytes[2]);
        v.push(self.bytes[3]);
        proof {
            assert(v@ =~= self@);
            lemma_ascii_bytes_valid_utf8(v@);
        }
        match utf8_to_text(v) {
            Some(s) => s,
            None => {
                proof {
                    assert(false);
                }
                String::new()
            },
        }
    }
}

} // verus!
