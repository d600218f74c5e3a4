//! Interpreting payload bytes as UTF-8 text. The check itself is done by
//! the standard library; its outcome is stated over vstd's UTF-8 model.

use vstd::prelude::*;
use vstd::utf8::{decode_utf8, valid_utf8};

verus! {

/// A sequence of 7-bit bytes is valid UTF-8: every byte stands for one
/// character on its own.
pub proof fn lemma_ascii_bytes_valid_utf8(bytes: Seq<u8>)
    requires
        forall|i: int| 0 <= i < bytes.len() ==> #[trigger] bytes[i] < 0x80,
    ensures
        valid_utf8(bytes),
{
    assert(bytes.subrange(0, 0) =~= Seq::<u8>::empty());
    assert(vstd::utf8::partial_valid_utf8(bytes, 0));
    vstd::utf8::partial_valid_utf8_extend_ascii_block(bytes, 0, bytes.len() as int);
    assert(bytes.subrange(0, bytes.len() as int) =~= bytes);
}

/// Relies on `String::from_utf8`: it succeeds exactly on valid UTF-8
/// input and returns the decoded characters.
#[verifier::external_body]
pub(crate) fn utf8_to_text(v: Vec<u8>) -> (r: Option<String>)
    ensures
        r is Some <==> valid_utf8(v@),
        r matches Some(s) ==> s@ == decode_utf8(v@),
{
    String::from_utf8(v).ok()
}

} // verus!
