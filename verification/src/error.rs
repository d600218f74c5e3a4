//! The error kinds that decoding, lookup and text interpretation can
//! return. Every fallible operation of the library reports exactly one
//! of these; callers can branch on the kind.

use vstd::prelude::*;

verus! {

/// One error kind per way an operation can fail.
#[derive(Clone, Copy, Debug, PartialEq, Eq, Structural)]
pub enum PngError {
    /// The buffer is shorter than the minimum frame for the structure
    /// being parsed.
    TooShort,
    /// The signature bytes do not match the fixed constant.
    BadHeader,
    /// The type bytes are not all letters, or fail the validity
    /// predicate.
    InvalidType,
    /// The declared record length does not equal the actual payload
    /// span available.
    LengthMismatch,
    /// The recomputed checksum disagrees with the stored checksum.
    ChecksumMismatch,
    /// No record matches the requested type.
    NotFound,
    /// The payload is not valid UTF-8.
    InvalidEncoding,
    /// A type code was built from text that is not exactly 4 bytes long.
    WrongLength,
    /// A type code was built from bytes that are not all ASCII letters.
    NotAllLetters,
}

/// The fixed description of each error kind.
pub open spec fn spec_describe(e: PngError) -> Seq<char> {
    match e {
        PngError::TooShort => "buffer too short"@,
        PngError::BadHeader => "wrong signature"@,
        PngError::InvalidType => "invalid chunk type"@,
        PngError::LengthMismatch => "wrong data length"@,
        PngError::ChecksumMismatch => "checksum mismatch"@,
        PngError::NotFound => "no chunk with such type"@,
        PngError::InvalidEncoding => "payload is not valid UTF-8"@,
        PngError::WrongLength => "type text must be 4 bytes"@,
        PngError::NotAllLetters => "type bytes must all be letters"@,
    }
}

impl PngError {
    /// A short fixed description of the error kind.
    pub fn describe(&self) -> (r: &'static str)
        ensures
            r@ == spec_describe(*self),
            r@.len() > 0,
    {
        proof {
            reveal_strlit("buffer too short");
            reveal_strlit("wrong signature");
            reveal_strlit("invalid chunk type");
            reveal_strlit("wrong data length");
            reveal_strlit("checksum mismatch");
            reveal_strlit("no chunk with such type");
            reveal_strlit("payload is not valid UTF-8");
            reveal_strlit("type text must be 4 bytes");
            reveal_strlit("type bytes must all be letters");
        }
        match self {
            PngError::TooShort => "buffer too short",
            PngError::BadHeader => "wrong signature",
            PngError::InvalidType => "invalid chunk type",
            PngError::LengthMismatch => "wrong data length",
            PngError::ChecksumMismatch => "checksum mismatch",
            PngError::NotFound => "no chunk with such type",
            PngError::InvalidEncoding => "payload is not valid UTF-8",
            PngError::WrongLength => "type text must be 4 bytes",
            PngError::NotAllLetters => "type bytes must all be letters",
        }
    }
}

} // verus!
