//! The shifts of 32-bit words: how a shift distance is taken from a register,
//! what an arithmetic right shift is, and what each shift computes when the
//! word is read as a number.

use vstd::arithmetic::div_mod::{
    lemma_fundamental_div_mod, lemma_fundamental_div_mod_converse, lemma_hoist_over_denominator,
};
use vstd::arithmetic::power2::{lemma2_to64, lemma_pow2_adds, lemma_pow2_pos, pow2};
use vstd::bits::{
    lemma_u32_low_bits_mask_is_mod, lemma_u32_shl_is_mul, lemma_u32_shr_is_div, low_bits_mask,
};
use vstd::prelude::*;
use crate::word::{signed, wrap};

verus! {

/// The shift distance that a register operand stands for: its low five bits.
pub open spec fn shift_amount(x: u32) -> u32 {
    x & 0x1f
}

/// `x` shifted right by `sh` places with its sign bit copied into the places
/// that the shift vacates.
pub open spec fn shift_right_arithmetic(x: u32, sh: u32) -> u32 {
    if x & 0x8000_0000 == 0 {
        x >> sh
    } else {
        (x >> sh) | !(0xffff_ffffu32 >> sh)
    }
}

/// A right shift of the `i32` reading of a word is its arithmetic right
/// shift.
pub proof fn lemma_signed_shift_right(x: u32, sh: u32)
    requires
        sh < 32,
    ensures
        (((x as i32) >> sh) as u32) == shift_right_arithmetic(x, sh),
{
    assert((((x as i32) >> sh) as u32) == if x & 0x8000_0000 == 0 {
        x >> sh
    } else {
        (x >> sh) | !(0xffff_ffffu32 >> sh)
    }) by (bit_vector)
        requires
            sh < 32,
    ;
}

/// Register shifts look at the low five bits of the distance only: a
/// distance of 32 or more shifts as its remainder modulo 32 does, and a
/// multiple of 32 does not shift at all.
pub proof fn lemma_shift_masking(x: u32, distance: u32)
    ensures
        shift_amount(distance) == distance % 32,
        shift_amount(distance) == shift_amount((distance % 32) as u32),
        x << shift_amount(distance) == x << ((distance % 32) as u32),
        x >> shift_amount(distance) == x >> ((distance % 32) as u32),
        shift_right_arithmetic(x, shift_amount(distance)) == shift_right_arithmetic(
            x,
            (distance % 32) as u32,
        ),
        distance % 32 == 0 ==> {
            &&& x << shift_amount(distance) == x
            &&& x >> shift_amount(distance) == x
            &&& shift_right_arithmetic(x, shift_amount(distance)) == x
        },
{
    assert(distance & 0x1f == distance % 32) by (bit_vector);
    assert((distance % 32) & 0x1f == distance % 32) by (bit_vector);
    assert(x << 0u32 == x && x >> 0u32 == x && shift_right_arithmetic(x, 0) == x) by (bit_vector);
}

/// A word moved up by 12 places is the word times 4096, modulo 2^32, and
/// its low 12 bits are 0.
pub proof fn lemma_upper_immediate(imm: u32)
    ensures
        imm << 12 == wrap(imm * 0x1000),
        (imm << 12) & 0xfff == 0,
{
    assert(imm << 12 == (imm * 0x1000) % 0x1_0000_0000) by (bit_vector);
    assert((imm << 12) & 0xfff == 0) by (bit_vector);
}

/// 2^`sh` and 2^(32 - `sh`) multiply to 2^32, and the word of all ones
/// shifted right by `sh` places is 2^(32 - `sh`) - 1.
proof fn lemma_split_modulus(sh: u32)
    requires
        sh < 32,
    ensures
        pow2(sh as nat) > 0,
        pow2((32 - sh) as nat) > 0,
        pow2(sh as nat) * pow2((32 - sh) as nat) == 0x1_0000_0000,
        0xffff_ffffu32 >> sh == pow2((32 - sh) as nat) - 1,
{
    let d = pow2(sh as nat) as int;
    let k = pow2((32 - sh) as nat) as int;
    lemma_pow2_pos(sh as nat);
    lemma_pow2_pos((32 - sh) as nat);
    lemma_pow2_adds(sh as nat, (32 - sh) as nat);
    lemma2_to64();
    lemma_u32_shr_is_div(0xffff_ffff, sh);
    assert(0xffff_ffff == (k - 1) * d + (d - 1)) by (nonlinear_arith)
        requires
            d * k == 0x1_0000_0000,
    ;
    lemma_fundamental_div_mod_converse(0xffff_ffff, d, k - 1, d - 1);
}

/// A left shift multiplies by 2^`sh`, modulo 2^32.
pub proof fn lemma_left_shift_multiplies(x: u32, sh: u32)
    requires
        sh < 32,
    ensures
        x << sh == wrap(x * pow2(sh as nat)),
{
    let d = pow2(sh as nat) as int;
    lemma2_to64();
    if sh == 0 {
        assert(x << 0u32 == x) by (bit_vector);
    } else {
        let n = (32 - sh) as nat;
        let k = pow2(n) as int;
        lemma_split_modulus(sh);
        let low = x & (0xffff_ffffu32 >> sh);
        assert(0xffff_ffffu32 >> sh == low_bits_mask(n));
        lemma_u32_low_bits_mask_is_mod(x, n);
        assert(low == x % (k as u32));
        assert(x << sh == low << sh) by (bit_vector)
            requires
                sh < 32,
                low == x & (0xffff_ffffu32 >> sh),
        ;
        assert(low * d < 0x1_0000_0000) by (nonlinear_arith)
            requires
                0 <= low <= k - 1,
                d > 0,
                d * k == 0x1_0000_0000,
        ;
        lemma_u32_shl_is_mul(low, sh);
        lemma_fundamental_div_mod(x as int, k);
        let q = x as int / k;
        assert(x * d == q * 0x1_0000_0000 + low * d) by (nonlinear_arith)
            requires
                x == k * q + low,
                d * k == 0x1_0000_0000,
        ;
        lemma_fundamental_div_mod_converse(x * d, 0x1_0000_0000, q, low * d);
    }
}

/// A logical right shift divides the unsigned reading by 2^`sh`, and an
/// arithmetic right shift divides the signed reading by 2^`sh`; both round
/// down.
pub proof fn lemma_right_shifts_divide(x: u32, sh: u32)
    requires
        sh < 32,
    ensures
        x >> sh == x as int / (pow2(sh as nat) as int),
        signed(shift_right_arithmetic(x, sh)) == signed(x) / (pow2(sh as nat) as int),
{
    let d = pow2(sh as nat) as int;
    let k = pow2((32 - sh) as nat) as int;
    lemma_split_modulus(sh);
    lemma_u32_shr_is_div(x, sh);
    let shifted = shift_right_arithmetic(x, sh);
    assert(x & 0x8000_0000 == 0 <==> x < 0x8000_0000) by (bit_vector);
    if x < 0x8000_0000 {
        assert(x >> sh <= x) by (bit_vector);
    } else {
        assert(shifted == (x >> sh) + (0xffff_ffffu32 - (0xffff_ffffu32 >> sh)) && shifted
            >= 0x8000_0000) by (bit_vector)
            requires
                sh < 32,
                x >= 0x8000_0000,
                shifted == (x >> sh) | !(0xffff_ffffu32 >> sh),
        ;
        lemma_hoist_over_denominator(x as int, -k, d as nat);
        assert(x + (-k) * d == x - 0x1_0000_0000) by (nonlinear_arith)
            requires
                d * k == 0x1_0000_0000,
        ;
    }
}

} // verus!
