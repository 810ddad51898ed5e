//! Arithmetic readings of the bit operations that the coder performs on its
//! 64-bit registers.
use vstd::prelude::*;

verus! {

/// `2^56`: registers below it have a zero top byte.
pub const TOP8: u64 = 0x0100_0000_0000_0000;

/// `2^48`: ranges below it are widened by the range-reduction pass.
pub const TOP16: u64 = 0x0001_0000_0000_0000;

/// The top byte of a register is its quotient by `2^56`.
pub proof fn lemma_top_byte(x: u64)
    ensures
        (x >> 56) == x / TOP8,
        (x >> 56) < 256,
        ((x >> 56) as u8) as int == x as int / 0x0100_0000_0000_0000,
{
    assert((x >> 56) == x / 0x0100_0000_0000_0000u64) by (bit_vector);
    assert((x >> 56) < 256) by (bit_vector);
    assert(((x >> 56) as u8) == (x >> 56)) by (bit_vector);
}

/// Shifting a register left by one byte drops its top byte and scales the
/// rest by 256.
pub proof fn lemma_shift_left(x: u64)
    ensures
        (x << 8) as int == (x as int % 0x0100_0000_0000_0000) * 256,
{
    assert((x << 8) == (x % 0x0100_0000_0000_0000u64) * 256) by (bit_vector);
}

/// Two registers agree in their top byte exactly when their XOR is below
/// `2^56`.
pub proof fn lemma_xor_top_byte(a: u64, b: u64)
    ensures
        ((a ^ b) < TOP8) <==> (a / TOP8 == b / TOP8),
{
    assert(((a ^ b) < 0x0100_0000_0000_0000u64) <==> (a / 0x0100_0000_0000_0000u64 == b
        / 0x0100_0000_0000_0000u64)) by (bit_vector);
}

/// The widest range that keeps the low 48 bits of `x` from carrying.
pub proof fn lemma_not_mask(x: u64)
    ensures
        (!x & 0xffff_ffff_ffffu64) as int == 0xffff_ffff_ffff - (x as int % 0x1_0000_0000_0000),
{
    assert((!x & 0xffff_ffff_ffffu64) == 0xffff_ffff_ffffu64 - (x % 0x1_0000_0000_0000u64))
        by (bit_vector);
}

/// Shifting a byte into the low end of a window.
pub proof fn lemma_shift_in(w: u64, b: u8)
    ensures
        ((w << 8) | (b as u64)) as int == (w as int % 0x0100_0000_0000_0000) * 256 + b as int,
{
    let bb: u64 = b as u64;
    assert(((w << 8) | bb) == (w % 0x0100_0000_0000_0000u64) * 256 + bb) by (bit_vector)
        requires
            bb < 256,
    ;
}

} // verus!
