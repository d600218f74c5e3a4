//! Big-endian framing of 32-bit values: the container format stores
//! record lengths and checksums as four bytes, most significant first.

use vstd::prelude::*;
use vstd::arithmetic::div_mod::{
    lemma_fundamental_div_mod, lemma_fundamental_div_mod_converse_div,
    lemma_fundamental_div_mod_converse_mod, lemma_mod_breakdown,
};

verus! {

/// The four big-endian bytes of a 32-bit value, most significant first.
pub open spec fn spec_u32_to_be_bytes(x: u32) -> Seq<u8> {
    seq![
        (x / 0x1000000) as u8,
        ((x / 0x10000) % 0x100) as u8,
        ((x / 0x100) % 0x100) as u8,
        (x % 0x100) as u8,
    ]
}

/// The 32-bit value held by four big-endian bytes.
pub open spec fn spec_u32_from_be_bytes(s: Seq<u8>) -> u32
    recommends
        s.len() == 4,
{
    (s[0] * 0x1000000 + s[1] * 0x10000 + s[2] * 0x100 + s[3]) as u32
}

/// Law: reading back the four big-endian bytes of a value yields the
/// value itself.
pub proof fn lemma_u32_be_bytes_round_trip(x: u32)
    ensures
        spec_u32_from_be_bytes(spec_u32_to_be_bytes(x)) == x,
{
    let xi: int = x as int;
    lemma_fundamental_div_mod(xi, 0x1000000);
    lemma_mod_breakdown(xi, 0x10000, 0x100);
    lemma_mod_breakdown(xi, 0x100, 0x100);
    assert(xi / 0x1000000 < 0x100) by (nonlinear_arith)
        requires
            0 <= xi < 0x100000000,
    ;
}

/// Law: writing back the value read from four big-endian bytes yields
/// the bytes themselves.
pub proof fn lemma_u32_be_bytes_inverse(s: Seq<u8>)
    requires
        s.len() == 4,
    ensures
        spec_u32_to_be_bytes(spec_u32_from_be_bytes(s)) == s,
{
    let b0: int = s[0] as int;
    let b1: int = s[1] as int;
    let b2: int = s[2] as int;
    let b3: int = s[3] as int;
    let x: int = b0 * 0x1000000 + b1 * 0x10000 + b2 * 0x100 + b3;
    assert(spec_u32_from_be_bytes(s) == x);
    lemma_fundamental_div_mod_converse_div(x, 0x1000000, b0, b1 * 0x10000 + b2 * 0x100 + b3);
    lemma_fundamental_div_mod_converse_div(x, 0x10000, b0 * 0x100 + b1, b2 * 0x100 + b3);
    lemma_fundamental_div_mod_converse_mod(b0 * 0x100 + b1, 0x100, b0, b1);
    lemma_fundamental_div_mod_converse_div(x, 0x100, b0 * 0x10000 + b1 * 0x100 + b2, b3);
    lemma_fundamental_div_mod_converse_mod(b0 * 0x10000 + b1 * 0x100 + b2, 0x100, b0 * 0x100 + b1, b2);
    lemma_fundamental_div_mod_converse_mod(x, 0x100, b0 * 0x10000 + b1 * 0x100 + b2, b3);
    assert(spec_u32_to_be_bytes(spec_u32_from_be_bytes(s)) =~= s);
}

/// Reads a 32-bit value from four big-endian bytes.
pub fn u32_from_be_bytes(b: &[u8]) -> (x: u32)
    requires
        b@.len() == 4,
    ensures
        x == spec_u32_from_be_bytes(b@),
{
    let x0 = b[0] as u32;
    let x1 = b[1] as u32;
    let x2 = b[2] as u32;
    let x3 = b[3] as u32;
    x0 * 0x1000000 + x1 * 0x10000 + x2 * 0x100 + x3
}

/// Writes a 32-bit value as four big-endian bytes.
pub fn u32_to_be_bytes(x: u32) -> (r: [u8; 4])
    ensures
        r@ == spec_u32_to_be_bytes(x),
{
    let b0 = (x / 0x1000000) as u8;
    let b1 = ((x / 0x10000) % 0x100) as u8;
    let b2 = ((x / 0x100) % 0x100) as u8;
    let b3 = (x % 0x100) as u8;
    let r = [b0, b1, b2, b3];
    proof {
        assert(r@ =~= spec_u32_to_be_bytes(x));
    }
    r
}

} // verus!
