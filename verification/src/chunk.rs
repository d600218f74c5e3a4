//! One record of the container: a length-prefixed, type-tagged,
//! checksummed data block, together with its on-wire codec.

use vstd::prelude::*;
use vstd::slice::{slice_subrange, slice_to_vec};
use vstd::utf8::{decode_utf8, valid_utf8};
use crate::be_bytes::{
    lemma_u32_be_bytes_inverse, lemma_u32_be_bytes_round_trip, spec_u32_from_be_bytes,
    spec_u32_to_be_bytes, u32_from_be_bytes, u32_to_be_bytes,
};
use crate::checksum::{crc32_iso_hdlc, crc32_of};
use crate::chunk_type::{all_letters, spec_type_valid, ChunkType};
use crate::error::PngError;
use crate::text::utf8_to_text;

verus! {

/// The abstract value of a record: its declared length, raw type bytes,
/// payload and stored checksum.
#[verifier::ext_equal]
pub struct ChunkView {
    pub data_length: u32,
    pub type_code: Seq<u8>,
    pub data: Seq<u8>,
    pub crc: u32,
}

impl ChunkView {
    /// Well-formedness: the type bytes are four letters, the declared
    /// length equals the payload length, and the stored checksum is the
    /// CRC-32/ISO-HDLC of type followed by payload.
    pub open spec fn wf(self) -> bool {
        &&& self.type_code.len() == 4
        &&& all_letters(self.type_code)
        &&& self.data_length == self.data.len()
        &&& self.crc == crc32_of(self.type_code + self.data)
    }
}

/// The on-wire bytes of a record: big-endian length, type bytes,
/// payload, big-endian checksum.
pub open spec fn spec_chunk_encode(v: ChunkView) -> Seq<u8> {
    spec_u32_to_be_bytes(v.data_length) + v.type_code + v.data + spec_u32_to_be_bytes(v.crc)
}

/// What decoding a byte buffer as one record yields: the record, or the
/// exact error the buffer deserves.
#[verifier::opaque]
pub open spec fn spec_chunk_decode(bytes: Seq<u8>) -> Result<ChunkView, PngError> {
    if bytes.len() < 12 {
        Err(PngError::TooShort)
    } else {
        let data_length = spec_u32_from_be_bytes(bytes.subrange(0, 4));
        let type_code = bytes.subrange(4, 8);
        if !(all_letters(type_code) && spec_type_valid(type_code)) {
            Err(PngError::InvalidType)
        } else {
            let data = bytes.subrange(8, bytes.len() - 4);
            if data_length != data.len() {
                Err(PngError::LengthMismatch)
            } else {
                let crc = spec_u32_from_be_bytes(
                    bytes.subrange(bytes.len() - 4, bytes.len() as int),
                );
                if crc != crc32_of(type_code + data) {
                    Err(PngError::ChecksumMismatch)
                } else {
                    Ok(ChunkView { data_length, type_code, data, crc })
                }
            }
        }
    }
}

/// One length-prefixed, type-tagged, checksummed record. Immutable once
/// constructed; both constructors establish `wf`.
#[derive(Debug)]
pub struct Chunk {
    data_length: u32,
    chunk_type: ChunkType,
    data: Vec<u8>,
    crc: u32,
}

impl View for Chunk {
    type V = ChunkView;

    closed spec fn view(&self) -> ChunkView {
        ChunkView {
            data_length: self.data_length,
            type_code: self.chunk_type@,
            data: self.data@,
            crc: self.crc,
        }
    }
}

impl Chunk {
    /// Well-formedness of the record's abstract value.
    pub open spec fn wf(self) -> bool {
        self@.wf()
    }

    /// Builds a record from a type code and a payload: the declared
    /// length is the payload length and the checksum is computed over
    /// type followed by payload. A payload beyond the 32-bit range is a
    /// precondition violation, not a recoverable error.
    pub fn new(chunk_type: ChunkType, data: Vec<u8>) -> (r: Chunk)
        requires
            chunk_type.wf(),
            data@.len() <= u32::MAX,
        ensures
            r@.data_length == data@.len(),
            r@.type_code == chunk_type@,
            r@.data == data@,
            r@.crc == crc32_of(chunk_type@ + data@),
            r.wf(),
    {
        let data_length = data.len() as u32;
        let tb = chunk_type.bytes();
        let mut body: Vec<u8> = Vec::new();
        body.push(tb[0]);
        body.push(tb[1]);
        body.push(tb[2]);
        body.push(tb[3]);
        proof {
            assert(body@ =~= chunk_type@);
        }
        let mut i: usize = 0;
        while i < data.len()
            invariant
                i <= data@.len(),
                body@ =~= chunk_type@ + data@.take(i as int),
            decreases data@.len() - i,
        {
            body.push(data[i]);
            proof {
                assert(chunk_type@ + data@.take(i + 1) =~= (chunk_type@ + data@.take(
                    i as int,
                )).push(data@[i as int]));
            }
            i = i + 1;
        }
        proof {
            assert(data@.take(data@.len() as int) =~= data@);
        }
        let crc = crc32_iso_hdlc(body.as_slice());
        Chunk { data_length, chunk_type, data, crc }
    }

    /// Decodes one record from a byte buffer, verifying every field:
    /// nothing is trusted blindly.
    pub fn try_from(bytes: &[u8]) -> (r: Result<Chunk, PngError>)
        ensures
            r is Ok <==> spec_chunk_decode(bytes@) is Ok,
            r matches Ok(c) ==> spec_chunk_decode(bytes@) == Ok::<ChunkView, PngError>(c@)
                && c.wf() && spec_type_valid(c@.type_code),
            r matches Err(e) ==> spec_chunk_decode(bytes@) == Err::<ChunkView, PngError>(e),
    {
        proof {
            reveal(spec_chunk_decode);
        }
        let length = bytes.len();
        if length < 12 {
            return Err(PngError::TooShort);
        }
        let data_length = u32_from_be_bytes(slice_subrange(bytes, 0, 4));
        let tc = slice_subrange(bytes, 4, 8);
        let tc_bytes: [u8; 4] = [tc[0], tc[1], tc[2], tc[3]];
        proof {
            assert(tc_bytes@ =~= bytes@.subrange(4, 8));
        }
        let chunk_type = match ChunkType::try_from(tc_bytes) {
            Ok(t) => t,
            Err(_) => {
                return Err(PngError::InvalidType);
            },
        };
        if !chunk_type.is_valid() {
            return Err(PngError::InvalidType);
        }
        let data: Vec<u8> = slice_to_vec(slice_subrange(bytes, 8, length - 4));
        if data_length as usize != data.len() {
            return Err(PngError::LengthMismatch);
        }
        let crc = u32_from_be_bytes(slice_subrange(bytes, length - 4, length));
        let computed = crc32_iso_hdlc(slice_subrange(bytes, 4, length - 4));
        proof {
            assert(bytes@.subrange(4, length - 4) =~= bytes@.subrange(4, 8) + bytes@.subrange(
                8,
                length - 4,
            ));
        }
        if crc != computed {
            return Err(PngError::ChecksumMismatch);
        }
        Ok(Chunk { data_length, chunk_type, data, crc })
    }

    /// The declared payload length.
    pub fn data_length(&self) -> (r: u32)
        ensures
            r == self@.data_length,
    {
        self.data_length
    }

    /// The record's type code.
    pub fn chunk_type(&self) -> (r: &ChunkType)
        ensures
            r@ == self@.type_code,
    {
        &self.chunk_type
    }

    /// The raw payload bytes.
    pub fn data(&self) -> (r: &[u8])
        ensures
            r@ == self@.data,
    {
        self.data.as_slice()
    }

    /// The stored checksum.
    pub fn crc(&self) -> (r: u32)
        ensures
            r == self@.crc,
    {
        self.crc
    }

    /// The payload interpreted as UTF-8 text; fails with
    /// `InvalidEncoding` exactly when the payload is not valid UTF-8.
    pub fn data_as_string(&self) -> (r: Result<String, PngError>)
        ensures
            r is Ok <==> valid_utf8(self@.data),
            r matches Ok(s) ==> s@ == decode_utf8(self@.data),
            r matches Err(e) ==> e == PngError::InvalidEncoding,
    {
        let v = slice_to_vec(self.data.as_slice());
        match utf8_to_text(v) {
            Some(s) => Ok(s),
            None => Err(PngError::InvalidEncoding),
        }
    }

    /// The record's exact on-wire bytes.
    pub fn as_bytes(&self) -> (r: Vec<u8>)
        ensures
            r@ == spec_chunk_encode(self@),
    {
        let mut r: Vec<u8> = Vec::new();
        let len_bytes = u32_to_be_bytes(self.data_length);
        r.push(len_bytes[0]);
        r.push(len_bytes[1]);
        r.push(len_bytes[2]);
        r.push(len_bytes[3]);
        let tb = self.chunk_type.bytes();
        r.push(tb[0]);
        r.push(tb[1]);
        r.push(tb[2]);
        r.push(tb[3]);
        proof {
            assert(r@ =~= spec_u32_to_be_bytes(self@.data_length) + self@.type_code);
        }
        let mut i: usize = 0;
        while i < self.data.len()
            invariant
                i <= self@.data.len(),
                r@ =~= spec_u32_to_be_bytes(self@.data_length) + self@.type_code + self@.data.take(
                    i as int,
                ),
            decreases self@.data.len() - i,
        {
            r.push(self.data[i]);
            proof {
                assert(spec_u32_to_be_bytes(self@.data_length) + self@.type_code + self@.data.take(
                    i + 1,
                ) =~= (spec_u32_to_be_bytes(self@.data_length) + self@.type_code
                    + self@.data.take(i as int)).push(self@.data[i as int]));
            }
            i = i + 1;
        }
        let crc_bytes = u32_to_be_bytes(self.crc);
        r.push(crc_bytes[0]);
        r.push(crc_bytes[1]);
        r.push(crc_bytes[2]);
        r.push(crc_bytes[3]);
        proof {
            assert(self@.data.take(self@.data.len() as int) =~= self@.data);
            assert(r@ =~= spec_chunk_encode(self@));
        }
        r
    }
}

/// The raw type bytes of any record are exactly four, whatever its
/// provenance: the type code is stored as a 4-byte array.
pub proof fn lemma_chunk_type_code_len(c: &Chunk)
    ensures
        c@.type_code.len() == 4,
{
    c.chunk_type.lemma_view_len();
}

/// Law: decoding the encoding of a well-formed record whose type is
/// valid yields the record itself — same declared length, type bytes,
/// payload and checksum.
pub proof fn lemma_chunk_round_trip(v: ChunkView)
    requires
        v.wf(),
        spec_type_valid(v.type_code),
    ensures
        spec_chunk_decode(spec_chunk_encode(v)) == Ok::<ChunkView, PngError>(v),
{
    reveal(spec_chunk_decode);
    let bytes = spec_chunk_encode(v);
    lemma_u32_be_bytes_round_trip(v.data_length);
    lemma_u32_be_bytes_round_trip(v.crc);
    assert(bytes.len() == 12 + v.data.len());
    assert(bytes.subrange(0, 4) =~= spec_u32_to_be_bytes(v.data_length));
    assert(bytes.subrange(4, 8) =~= v.type_code);
    assert(bytes.subrange(8, bytes.len() - 4) =~= v.data);
    assert(bytes.subrange(bytes.len() - 4, bytes.len() as int) =~= spec_u32_to_be_bytes(v.crc));
    assert(spec_chunk_decode(bytes)->Ok_0 =~= v);
}

/// Law: re-encoding a successfully decoded record reproduces the exact
/// input bytes — encoding is the inverse of decoding on its range.
pub proof fn lemma_chunk_reencode(bytes: Seq<u8>)
    requires
        spec_chunk_decode(bytes) is Ok,
    ensures
        spec_chunk_encode(spec_chunk_decode(bytes)->Ok_0) == bytes,
{
    reveal(spec_chunk_decode);
    let v = spec_chunk_decode(bytes)->Ok_0;
    assert(bytes.len() >= 12);
    lemma_u32_be_bytes_inverse(bytes.subrange(0, 4));
    lemma_u32_be_bytes_inverse(bytes.subrange(bytes.len() - 4, bytes.len() as int));
    assert(spec_chunk_encode(v) =~= bytes);
}

} // verus!
