//! The record checksum: CRC-32/ISO-HDLC over the type bytes followed by
//! the payload bytes. The computation itself comes from the `crc` crate;
//! the library only names its result.

use vstd::prelude::*;

verus! {

/// The CRC-32/ISO-HDLC checksum of a byte sequence, as the `crc` crate
/// computes it. The checksum is a pure function of the bytes; nothing
/// more is assumed about its value.
pub uninterp spec fn crc32_of(bytes: Seq<u8>) -> u32;

/// Relies on `crc::Crc::<u32>::checksum` with the `CRC_32_ISO_HDLC`
/// algorithm: the checksum depends on the input bytes alone.
#[verifier::external_body]
pub(crate) fn crc32_iso_hdlc(bytes: &[u8]) -> (r: u32)
    ensures
        r == crc32_of(bytes@),
{
    crc::Crc::<u32>::new(&crc::CRC_32_ISO_HDLC).checksum(bytes)
}

/// Law: the checksum over a type and payload depends only on those
/// bytes: equal (type, payload) pairs always yield equal checksums.
pub proof fn lemma_checksum_deterministic(t1: Seq<u8>, p1: Seq<u8>, t2: Seq<u8>, p2: Seq<u8>)
    requires
        t1 == t2,
        p1 == p2,
    ensures
        crc32_of(t1 + p1) == crc32_of(t2 + p2),
{
}

} // verus!
