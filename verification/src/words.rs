//! Word-level helpers: packing and unpacking 64-bit halves of a 128-bit
//! word, widening multiplication, and byte-order reversal.

use vstd::prelude::*;

verus! {

/// The low 64 bits of a 128-bit word.
pub open spec fn lo64(x: u128) -> u64 {
    (x & 0xffff_ffff_ffff_ffff) as u64
}

/// The high 64 bits of a 128-bit word.
pub open spec fn hi64(x: u128) -> u64 {
    (x >> 64) as u64
}

/// The 128-bit word with low half `x` and high half `y`.
pub open spec fn concat128(x: u64, y: u64) -> u128 {
    (x as u128) | ((y as u128) << 64)
}

/// The full 128-bit product of two 64-bit words.
pub open spec fn widemul(x: u64, y: u64) -> u128 {
    (x * y) as u128
}

/// Extracts the low 64 bits of a 128-bit word.
pub fn lo(x: u128) -> (r: u64)
    ensures
        r == lo64(x),
{
    proof {
        assert(x & 0xffff_ffff_ffff_ffff <= 0xffff_ffff_ffff_ffff) by (bit_vector);
    }
    (x & 0xffff_ffff_ffff_ffff) as u64
}

/// Extracts the high 64 bits of a 128-bit word.
pub fn hi(x: u128) -> (r: u64)
    ensures
        r == hi64(x),
{
    proof {
        assert(x >> 64 <= 0xffff_ffff_ffff_ffff) by (bit_vector);
    }
    (x >> 64) as u64
}

/// Packs two 64-bit words into one 128-bit word, `x` in the low half and
/// `y` in the high half.
pub fn concat(x: u64, y: u64) -> (r: u128)
    ensures
        r == concat128(x, y),
{
    (x as u128) | ((y as u128) << 64)
}

/// Multiplies two 64-bit words into their full 128-bit product.
pub fn mul(x: u64, y: u64) -> (r: u128)
    ensures
        r == widemul(x, y),
{
    proof {
        assert((x as int) * (y as int) <= 0xffff_ffff_ffff_ffff * 0xffff_ffff_ffff_ffff)
            by (nonlinear_arith)
            requires
                x <= 0xffff_ffff_ffff_ffffu64,
                y <= 0xffff_ffff_ffff_ffffu64,
        ;
    }
    (x as u128) * (y as u128)
}

/// Unpacking the halves of a packed word gives the halves back, and a
/// packed word is zero exactly when both halves are zero.
pub proof fn lemma_concat128_halves(x: u64, y: u64)
    ensures
        lo64(concat128(x, y)) == x,
        hi64(concat128(x, y)) == y,
        concat128(x, y) == 0 <==> x == 0 && y == 0,
{
    assert((((x as u128) | ((y as u128) << 64)) & 0xffff_ffff_ffff_ffff) as u64 == x)
        by (bit_vector);
    assert((((x as u128) | ((y as u128) << 64)) >> 64) as u64 == y) by (bit_vector);
    assert(((x as u128) | ((y as u128) << 64)) == 0 <==> x == 0 && y == 0) by (bit_vector);
}

/// The 128-bit word whose byte order is the reverse of `x`'s: byte `i` of
/// the result is byte `15 - i` of `x`.
pub open spec fn swap128(x: u128) -> u128 {
    ((x >> 120) & 0xff) | (((x >> 112) & 0xff) << 8) | (((x >> 104) & 0xff) << 16)
        | (((x >> 96) & 0xff) << 24) | (((x >> 88) & 0xff) << 32) | (((x >> 80) & 0xff) << 40)
        | (((x >> 72) & 0xff) << 48) | (((x >> 64) & 0xff) << 56) | (((x >> 56) & 0xff) << 64)
        | (((x >> 48) & 0xff) << 72) | (((x >> 40) & 0xff) << 80) | (((x >> 32) & 0xff) << 88)
        | (((x >> 24) & 0xff) << 96) | (((x >> 16) & 0xff) << 104) | (((x >> 8) & 0xff) << 112)
        | ((x & 0xff) << 120)
}

/// Reverses the byte order of a 128-bit word.
pub fn swap_bytes(x: u128) -> (r: u128)
    ensures
        r == swap128(x),
{
    ((x >> 120) & 0xff) | (((x >> 112) & 0xff) << 8) | (((x >> 104) & 0xff) << 16)
        | (((x >> 96) & 0xff) << 24) | (((x >> 88) & 0xff) << 32) | (((x >> 80) & 0xff) << 40)
        | (((x >> 72) & 0xff) << 48) | (((x >> 64) & 0xff) << 56) | (((x >> 56) & 0xff) << 64)
        | (((x >> 48) & 0xff) << 72) | (((x >> 40) & 0xff) << 80) | (((x >> 32) & 0xff) << 88)
        | (((x >> 24) & 0xff) << 96) | (((x >> 16) & 0xff) << 104) | (((x >> 8) & 0xff) << 112)
        | ((x & 0xff) << 120)
}

/// Reversing the byte order never turns a non-zero word into zero, nor zero
/// into a non-zero word.
pub proof fn lemma_swap128_zero(x: u128)
    ensures
        swap128(x) == 0 <==> x == 0,
{
    assert((((x >> 120) & 0xff) | (((x >> 112) & 0xff) << 8) | (((x >> 104) & 0xff) << 16)
        | (((x >> 96) & 0xff) << 24) | (((x >> 88) & 0xff) << 32) | (((x >> 80) & 0xff) << 40)
        | (((x >> 72) & 0xff) << 48) | (((x >> 64) & 0xff) << 56) | (((x >> 56) & 0xff) << 64)
        | (((x >> 48) & 0xff) << 72) | (((x >> 40) & 0xff) << 80) | (((x >> 32) & 0xff) << 88)
        | (((x >> 24) & 0xff) << 96) | (((x >> 16) & 0xff) << 104) | (((x >> 8) & 0xff) << 112)
        | ((x & 0xff) << 120)) == 0 <==> x == 0) by (bit_vector);
}

/// A 128-bit word is the packing of its own halves.
pub proof fn lemma_split128(s: u128)
    ensures
        concat128(lo64(s), hi64(s)) == s,
{
    assert((((s & 0xffff_ffff_ffff_ffff) as u64) as u128) | ((((s >> 64) as u64) as u128) << 64)
        == s) by (bit_vector);
}

} // verus!
