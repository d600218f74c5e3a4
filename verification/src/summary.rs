//! The human-readable summary of a record: its declared length, type
//! text, a hex preview of the first payload bytes, and its checksum.
//! Used for diagnostic printing only, never persisted.

use vstd::prelude::*;
use vstd::slice::slice_subrange;
use vstd::utf8::{decode_utf8, encode_scalar, encode_utf8, is_ascii_chars};
use crate::chunk::{Chunk, ChunkView};
use crate::text::{lemma_ascii_bytes_valid_utf8, utf8_to_text};

verus! {

/// The character for one decimal digit.
pub open spec fn spec_digit_char(d: int) -> char
    recommends
        0 <= d < 10,
{
    if d == 0 {
        '0'
    } else if d == 1 {
        '1'
    } else if d == 2 {
        '2'
    } else if d == 3 {
        '3'
    } else if d == 4 {
        '4'
    } else if d == 5 {
        '5'
    } else if d == 6 {
        '6'
    } else if d == 7 {
        '7'
    } else if d == 8 {
        '8'
    } else {
        '9'
    }
}

/// The character for one hexadecimal digit, lowercase.
pub open spec fn spec_hex_digit_char(d: int) -> char
    recommends
        0 <= d < 16,
{
    if d < 10 {
        spec_digit_char(d)
    } else if d == 10 {
        'a'
    } else if d == 11 {
        'b'
    } else if d == 12 {
        'c'
    } else if d == 13 {
        'd'
    } else if d == 14 {
        'e'
    } else {
        'f'
    }
}

/// The decimal digits of a non-negative value, most significant first.
pub open spec fn spec_decimal_chars(x: int) -> Seq<char>
    recommends
        x >= 0,
    decreases x,
{
    if x < 10 {
        seq![spec_digit_char(x)]
    } else {
        spec_decimal_chars(x / 10).push(spec_digit_char(x % 10))
    }
}

/// One payload byte rendered as `0x` and two lowercase hex digits.
pub open spec fn spec_hex_byte_chars(b: u8) -> Seq<char> {
    seq!['0', 'x', spec_hex_digit_char(b as int / 16), spec_hex_digit_char(b as int % 16)]
}

/// Payload bytes rendered in hex, separated by single spaces.
pub open spec fn spec_hex_list(data: Seq<u8>) -> Seq<char>
    decreases data.len(),
{
    if data.len() == 0 {
        Seq::empty()
    } else if data.len() == 1 {
        spec_hex_byte_chars(data[0])
    } else {
        spec_hex_byte_chars(data[0]) + seq![' '] + spec_hex_list(data.drop_first())
    }
}

/// The payload preview: the first 5 bytes in hex, with a truncation
/// marker when the payload is longer.
pub open spec fn spec_data_preview(data: Seq<u8>) -> Seq<char> {
    if data.len() > 5 {
        spec_hex_list(data.take(5)) + seq![' ', '.', '.', '.']
    } else {
        spec_hex_list(data)
    }
}

/// The whole summary: declared length, type text, payload preview and
/// checksum, each on its own indented line.
pub open spec fn spec_summary(v: ChunkView) -> Seq<char> {
    "Chunk:\n\tlength: "@ + spec_decimal_chars(v.data_length as int) + "\n\ttype: "@
        + decode_utf8(v.type_code) + "\n\tdata: "@ + spec_data_preview(v.data) + "\n\tcrc: "@
        + spec_decimal_chars(v.crc as int)
}

/// UTF-8 encoding distributes over concatenation of character
/// sequences.
pub proof fn lemma_encode_utf8_concat(a: Seq<char>, b: Seq<char>)
    ensures
        encode_utf8(a + b) == encode_utf8(a) + encode_utf8(b),
    decreases a.len(),
{
    if a.len() == 0 {
        assert(a + b =~= b);
        assert(encode_utf8(a) + encode_utf8(b) =~= encode_utf8(b));
    } else {
        assert((a + b).drop_first() =~= a.drop_first() + b);
        assert((a + b)[0] == a[0]);
        lemma_encode_utf8_concat(a.drop_first(), b);
        vstd::seq_lib::lemma_concat_associative(
            encode_scalar(a[0] as u32),
            encode_utf8(a.drop_first()),
            encode_utf8(b),
        );
    }
}

/// The UTF-8 encoding of ASCII characters is exactly their byte values.
pub proof fn lemma_ascii_chars_to_bytes(chars: Seq<char>, bytes: Seq<u8>)
    requires
        is_ascii_chars(chars),
        bytes.len() == chars.len(),
        forall|i: int| 0 <= i < chars.len() ==> bytes[i] == (#[trigger] chars[i]) as u8,
    ensures
        encode_utf8(chars) == bytes,
{
    vstd::utf8::is_ascii_chars_encode_utf8(chars);
    assert(encode_utf8(chars) =~= bytes);
}

/// Appends the bytes of a slice to a byte buffer.
fn push_slice(out: &mut Vec<u8>, s: &[u8])
    ensures
        final(out)@ == old(out)@ + s@,
{
    let ghost start = out@;
    let mut i: usize = 0;
    while i < s.len()
        invariant
            i <= s@.len(),
            out@ =~= start + s@.take(i as int),
        decreases s@.len() - i,
    {
        out.push(s[i]);
        proof {
            assert(start + s@.take(i + 1) =~= (start + s@.take(i as int)).push(s@[i as int]));
        }
        i = i + 1;
    }
    proof {
        assert(start + s@.take(s@.len() as int) =~= start + s@);
    }
}

/// Appends the decimal digits of a value, most significant first.
fn push_decimal(out: &mut Vec<u8>, x: u32)
    ensures
        final(out)@ == old(out)@ + encode_utf8(spec_decimal_chars(x as int)),
    decreases x,
{
    if x < 10 {
        out.push(48 + x as u8);
        proof {
            lemma_ascii_chars_to_bytes(spec_decimal_chars(x as int), seq![(48 + x) as u8]);
            assert(old(out)@ + encode_utf8(spec_decimal_chars(x as int)) =~= old(out)@.push(
                (48 + x) as u8,
            ));
        }
    } else {
        push_decimal(out, x / 10);
        let ghost mid = out@;
        let d = x % 10;
        out.push(48 + d as u8);
        proof {
            let high = spec_decimal_chars(x as int / 10);
            let low = seq![spec_digit_char(x as int % 10)];
            assert(spec_decimal_chars(x as int) =~= high + low);
            lemma_encode_utf8_concat(high, low);
            lemma_ascii_chars_to_bytes(low, seq![(48 + d) as u8]);
            assert(old(out)@ + encode_utf8(spec_decimal_chars(x as int)) =~= mid.push(
                (48 + d) as u8,
            ));
        }
    }
}

/// Appends one payload byte as `0x` and two hex digits.
fn push_hex_byte(out: &mut Vec<u8>, b: u8)
    ensures
        final(out)@ == old(out)@ + encode_utf8(spec_hex_byte_chars(b)),
{
    let hi = b / 16;
    let lo = b % 16;
    let hi_byte: u8 = if hi < 10 {
        48 + hi
    } else {
        87 + hi
    };
    let lo_byte: u8 = if lo < 10 {
        48 + lo
    } else {
        87 + lo
    };
    out.push(48);
    out.push(120);
    out.push(hi_byte);
    out.push(lo_byte);
    proof {
        lemma_ascii_chars_to_bytes(spec_hex_byte_chars(b), seq![48u8, 120u8, hi_byte, lo_byte]);
        assert(old(out)@ + encode_utf8(spec_hex_byte_chars(b)) =~= old(out)@.push(48u8).push(
            120u8,
        ).push(hi_byte).push(lo_byte));
    }
}

/// Appends the hex rendering of the given bytes, space-separated.
fn push_hex_list(out: &mut Vec<u8>, data: &[u8])
    ensures
        final(out)@ == old(out)@ + encode_utf8(spec_hex_list(data@)),
    decreases data@.len(),
{
    if data.len() == 0 {
        proof {
            assert(encode_utf8(spec_hex_list(data@)) =~= Seq::<u8>::empty());
            assert(old(out)@ + encode_utf8(spec_hex_list(data@)) =~= old(out)@);
        }
    } else if data.len() == 1 {
        push_hex_byte(out, data[0]);
    } else {
        push_hex_byte(out, data[0]);
        let ghost after_first = out@;
        out.push(32);
        let rest = slice_subrange(data, 1, data.len());
        proof {
            assert(rest@ =~= data@.drop_first());
        }
        push_hex_list(out, rest);
        proof {
            let head = spec_hex_byte_chars(data@[0]);
            let space = seq![' '];
            let tail = spec_hex_list(data@.drop_first());
            assert(spec_hex_list(data@) == head + space + tail);
            lemma_encode_utf8_concat(head + space, tail);
            lemma_encode_utf8_concat(head, space);
            lemma_ascii_chars_to_bytes(space, seq![32u8]);
            assert(old(out)@ + encode_utf8(spec_hex_list(data@)) =~= after_first.push(32u8)
                + encode_utf8(tail));
        }
    }
}

impl Chunk {
    /// The record's human-readable summary: declared length, type text,
    /// the first 5 payload bytes in hex (with a truncation marker when
    /// the payload is longer), and the stored checksum.
    pub fn summary(&self) -> (r: String)
        requires
            self.wf(),
        ensures
            r@ == spec_summary(self@),
    {
        let mut out: Vec<u8> = Vec::new();
        let part1 = "Chunk:\n\tlength: ";
        push_slice(&mut out, part1.as_bytes());
        let ghost mut done: Seq<char> = part1@;
        proof {
            assert(out@ =~= encode_utf8(done));
        }
        push_decimal(&mut out, self.data_length());
        proof {
            lemma_encode_utf8_concat(done, spec_decimal_chars(self@.data_length as int));
            done = done + spec_decimal_chars(self@.data_length as int);
        }
        let part2 = "\n\ttype: ";
        push_slice(&mut out, part2.as_bytes());
        proof {
            lemma_encode_utf8_concat(done, part2@);
            done = done + part2@;
        }
        let tb = self.chunk_type().bytes();
        out.push(tb[0]);
        out.push(tb[1]);
        out.push(tb[2]);
        out.push(tb[3]);
        proof {
            let before = encode_utf8(done);
            assert(out@ =~= before + self@.type_code);
            lemma_ascii_bytes_valid_utf8(self@.type_code);
            vstd::utf8::decode_utf8_encode_utf8(self@.type_code);
            lemma_encode_utf8_concat(done, decode_utf8(self@.type_code));
            done = done + decode_utf8(self@.type_code);
        }
        let part3 = "\n\tdata: ";
        push_slice(&mut out, part3.as_bytes());
        proof {
            lemma_encode_utf8_concat(done, part3@);
            done = done + part3@;
        }
        let data = self.data();
        let ghost before_preview = done;
        if data.len() > 5 {
            let first5 = slice_subrange(data, 0, 5);
            push_hex_list(&mut out, first5);
            let marker = " ...";
            push_slice(&mut out, marker.as_bytes());
            proof {
                let hex = spec_hex_list(self@.data.take(5));
                assert(first5@ =~= self@.data.take(5));
                reveal_strlit(" ...");
                assert(marker@ =~= seq![' ', '.', '.', '.']);
                assert(spec_data_preview(self@.data) == hex + marker@);
                lemma_encode_utf8_concat(before_preview, spec_data_preview(self@.data));
                lemma_encode_utf8_concat(hex, marker@);
                vstd::seq_lib::lemma_concat_associative(
                    encode_utf8(before_preview),
                    encode_utf8(hex),
                    encode_utf8(marker@),
                );
                done = before_preview + spec_data_preview(self@.data);
            }
        } else {
            push_hex_list(&mut out, data);
            proof {
                lemma_encode_utf8_concat(before_preview, spec_hex_list(self@.data));
                done = before_preview + spec_data_preview(self@.data);
            }
        }
        let part4 = "\n\tcrc: ";
        push_slice(&mut out, part4.as_bytes());
        proof {
            lemma_encode_utf8_concat(done, part4@);
            done = done + part4@;
        }
        push_decimal(&mut out, self.crc());
        proof {
            lemma_encode_utf8_concat(done, spec_decimal_chars(self@.crc as int));
            done = done + spec_decimal_chars(self@.crc as int);
            assert(done == spec_summary(self@));
            vstd::utf8::encode_utf8_valid_utf8(done);
        }
        match utf8_to_text(out) {
            Some(s) => {
                proof {
                    vstd::utf8::encode_utf8_decode_utf8(done);
                }
                s
            },
            None => {
                proof {
                    assert(false);
                }
                String::new()
            },
        }
    }
}

} // verus!
