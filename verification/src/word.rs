//! Arithmetic on 32-bit words: the signed reading of a bit pattern, reduction
//! modulo 2^32, and the two conversions that instruction operands go through.

use vstd::prelude::*;

verus! {

/// The number of distinct 32-bit words, 2^32.
pub open spec fn modulus() -> int {
    0x1_0000_0000
}

/// The value of a word read as a two's-complement signed integer.
pub open spec fn signed(x: u32) -> int {
    if x < 0x8000_0000 {
        x as int
    } else {
        x - modulus()
    }
}

/// The word that is congruent to `n` modulo 2^32.
pub open spec fn wrap(n: int) -> u32 {
    (n % modulus()) as u32
}

/// The word that undoes the addition of `x`: its negation modulo 2^32.
pub open spec fn negated(x: u32) -> u32 {
    wrap(-signed(x))
}

/// A word whose bit 11 is copied into every higher bit.
pub open spec fn sign_extended(imm: u32) -> u32 {
    if imm & 0x800 == 0 {
        imm
    } else {
        imm | 0xffff_f800
    }
}

/// Reinterpreting a word as `i32` gives its signed reading.
pub proof fn lemma_cast_to_signed(x: u32)
    ensures
        (x as i32) as int == signed(x),
{
    assert(x < 0x8000_0000u32 ==> (x as i32) == x) by (bit_vector);
    assert(x >= 0x8000_0000u32 ==> (x as i32) == x - 0x1_0000_0000) by (bit_vector);
}

/// Reinterpreting an `i32` as a word reduces it modulo 2^32, and the word's
/// signed reading is the `i32` again.
pub proof fn lemma_cast_to_unsigned(y: i32)
    ensures
        (y as u32) == wrap(y as int),
        signed(y as u32) == y,
{
    assert(y >= 0 ==> (y as u32) == y) by (bit_vector);
    assert(y < 0 ==> (y as u32) == y + 0x1_0000_0000) by (bit_vector);
}

/// The signed sum of two words is their unsigned sum, modulo 2^32.
pub proof fn lemma_signed_sum_is_unsigned_sum(a: u32, b: u32)
    ensures
        wrap(signed(a) + signed(b)) == wrap(a + b),
{
}

/// Adding a word and then its negation, both as signed numbers modulo 2^32,
/// gives back the word that was there.
pub proof fn lemma_add_then_add_negated(start: u32, x: u32)
    ensures
        wrap(signed(wrap(signed(start) + signed(x))) + signed(negated(x))) == start,
{
}

/// Widens a 12-bit immediate to a word by copying its sign bit, bit 11, into
/// bits 12 to 31. Bits of `imm` above bit 11 that are already set stay set.
pub fn sign_extend(imm: u32) -> (ext: u32)
    ensures
        ext == sign_extended(imm),
        imm < 0x800 ==> signed(ext) == imm,
        0x800 <= imm < 0x1000 ==> signed(ext) == imm - 0x1000,
{
    let signed_imm = imm as i32;
    let sign: i32 = (signed_imm >> 11) & 1;
    assert(sign == 0 || sign == 1) by (bit_vector)
        requires
            sign == (signed_imm >> 11u32) & 1,
    ;
    let extended_imm = signed_imm | ((-sign) << 11);
    assert(extended_imm as u32 == sign_extended(imm)) by (bit_vector)
        requires
            signed_imm == imm as i32,
            sign == (signed_imm >> 11u32) & 1,
            extended_imm == signed_imm | (((-sign) as i32) << 11u32),
    ;
    assert(imm < 0x800 ==> sign_extended(imm) == imm) by (bit_vector);
    assert(0x800 <= imm < 0x1000 ==> sign_extended(imm) == imm + 0xffff_f000) by (bit_vector);
    extended_imm as u32
}

/// Adds a signed offset to an unsigned base, modulo 2^32. Every jump and
/// branch target is computed by this rule.
pub fn unsigned_signed_add(left: u32, right: i32) -> (sum: u32)
    ensures
        sum == wrap(left + right),
{
    if right < 0 {
        let magnitude: u32 = (-(right as i64)) as u32;
        left.wrapping_sub(magnitude)
    } else {
        left.wrapping_add(right as u32)
    }
}

} // verus!
