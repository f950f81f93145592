//! Bit patterns of the IEEE-754 binary32 format: one sign bit, eight exponent
//! bits with a bias of 127, and 23 fraction bits.

use vstd::prelude::*;
use crate::ieee;

verus! {

pub const SIGN_MASK: u32 = 0x8000_0000;

/// Everything but the sign bit.
pub const ABS_MASK: u32 = 0x7fff_ffff;

pub const EXPONENT_MASK: u32 = 0x7f80_0000;

pub const EXPONENT_BIAS: i32 = 127;

/// The pattern of positive infinity.
pub const INFINITY: u32 = 0x7f80_0000;

/// The pattern of negative infinity.
pub const NEG_INFINITY: u32 = 0xff80_0000;

/// The weight of the implicit leading one: two to the width of the fraction.
pub const HIDDEN_BIT: u32 = 0x0080_0000;

/// Whether the sign bit is set.
pub open spec fn is_negative(bits: u32) -> bool {
    bits >= 0x8000_0000
}

/// The exponent field as stored, between 0 and 255.
pub open spec fn exponent_field(bits: u32) -> nat {
    ((bits / 0x80_0000) % 256) as nat
}

/// The fraction field, below 2^23.
pub open spec fn fraction_field(bits: u32) -> nat {
    (bits % 0x80_0000) as nat
}

/// The pattern with its sign bit cleared.
pub open spec fn abs_bits(bits: u32) -> u32 {
    if is_negative(bits) {
        (bits - 0x8000_0000) as u32
    } else {
        bits
    }
}

/// The pattern with the given fields: sign, stored exponent, fraction.
pub open spec fn pack(negative: bool, exponent: nat, fraction: nat) -> u32
    recommends
        exponent <= 255,
        fraction < 0x80_0000,
{
    ((if negative { 0x8000_0000int } else { 0 }) + 0x80_0000 * exponent + fraction) as u32
}

/// A pattern is finite unless its exponent field is all ones.
pub open spec fn spec_is_finite(bits: u32) -> bool {
    exponent_field(bits) != 255
}

/// A pattern is a NaN when its exponent field is all ones and its fraction
/// field is not zero.
pub open spec fn spec_is_nan(bits: u32) -> bool {
    exponent_field(bits) == 255 && fraction_field(bits) != 0
}

/// The size of the number, counted in units of 2^-149, the smallest size
/// above zero. For an infinity this gives 2^277 units, beyond every finite
/// size; for a NaN it has no meaning.
pub open spec fn magnitude(bits: u32) -> nat {
    ieee::magnitude(HIDDEN_BIT as nat, exponent_field(bits), fraction_field(bits))
}

/// The number itself, counted in units of 2^-149. Both zeros give 0.
pub open spec fn units(bits: u32) -> int {
    ieee::signed(is_negative(bits), magnitude(bits) as int)
}

/// The place of the pattern in the order of the values: the pattern with
/// its sign bit cleared, read as an integer, with the sign in front of it.
pub open spec fn spec_ordinal(bits: u32) -> int {
    ieee::signed(is_negative(bits), abs_bits(bits) as int)
}

/// `a < b` as IEEE-754 has it: false when either is a NaN, else by value.
pub open spec fn spec_lt(a: u32, b: u32) -> bool {
    !spec_is_nan(a) && !spec_is_nan(b) && units(a) < units(b)
}

/// `a <= b` as IEEE-754 has it: false when either is a NaN, else by value.
pub open spec fn spec_le(a: u32, b: u32) -> bool {
    !spec_is_nan(a) && !spec_is_nan(b) && units(a) <= units(b)
}

/// Of two patterns with the sign bit clear, the larger pattern stands for the
/// larger size.
pub proof fn lemma_magnitude_increases(a: u32, b: u32)
    requires
        a < b < 0x8000_0000,
    ensures
        magnitude(a) < magnitude(b),
{
    ieee::lemma_magnitude_increases(
        0x80_0000,
        exponent_field(a),
        fraction_field(a),
        exponent_field(b),
        fraction_field(b),
    );
}

/// The size does not depend on the sign bit.
pub proof fn lemma_magnitude_ignores_sign(bits: u32)
    ensures
        magnitude(bits) == magnitude(abs_bits(bits)),
        abs_bits(bits) < 0x8000_0000,
{
    assert(exponent_field(bits) == exponent_field(abs_bits(bits)));
    assert(fraction_field(bits) == fraction_field(abs_bits(bits)));
}

/// Two patterns are ordered by value as their ordinals are ordered as
/// integers, and stand for the same value exactly when their ordinals are
/// equal. (The two zeros have the ordinal 0.)
pub proof fn lemma_ordinal_orders(a: u32, b: u32)
    ensures
        units(a) < units(b) <==> spec_ordinal(a) < spec_ordinal(b),
        units(a) == units(b) <==> spec_ordinal(a) == spec_ordinal(b),
{
    let size_a = abs_bits(a);
    let size_b = abs_bits(b);
    lemma_magnitude_ignores_sign(a);
    lemma_magnitude_ignores_sign(b);
    assert(magnitude(0) == 0);
    if 0 < size_a {
        lemma_magnitude_increases(0, size_a);
    }
    if 0 < size_b {
        lemma_magnitude_increases(0, size_b);
    }
    if size_a < size_b {
        lemma_magnitude_increases(size_a, size_b);
    } else if size_b < size_a {
        lemma_magnitude_increases(size_b, size_a);
    }
}

/// Whether the pattern stands for a number: neither an infinity nor a NaN.
#[verifier::when_used_as_spec(spec_is_finite)]
pub fn is_finite(bits: u32) -> (finite: bool)
    ensures
        finite == spec_is_finite(bits),
{
    assert((bits & 0x7f80_0000 != 0x7f80_0000) == ((bits / 0x80_0000) % 256 != 255))
        by (bit_vector);
    bits & EXPONENT_MASK != EXPONENT_MASK
}

/// Whether the pattern is a NaN.
#[verifier::when_used_as_spec(spec_is_nan)]
pub fn is_nan(bits: u32) -> (nan: bool)
    ensures
        nan == spec_is_nan(bits),
{
    assert((bits & 0x7fff_ffff > 0x7f80_0000) == ((bits / 0x80_0000) % 256 == 255 && bits
        % 0x80_0000 != 0)) by (bit_vector);
    bits & ABS_MASK > EXPONENT_MASK
}

/// The place of the pattern in the order of the values. Both zeros give 0.
pub fn ordinal(bits: u32) -> (ordinal: i64)
    ensures
        ordinal == spec_ordinal(bits),
{
    assert(bits & 0x7fff_ffff == if bits >= 0x8000_0000 {
        (bits - 0x8000_0000) as u32
    } else {
        bits
    }) by (bit_vector);
    assert((bits & 0x8000_0000 != 0) == (bits >= 0x8000_0000)) by (bit_vector);
    let size = (bits & ABS_MASK) as i64;
    if bits & SIGN_MASK != 0 {
        -size
    } else {
        size
    }
}

/// `a < b` as it holds of the two floating-point numbers.
#[verifier::when_used_as_spec(spec_lt)]
pub fn lt(a: u32, b: u32) -> (less: bool)
    ensures
        less == spec_lt(a, b),
{
    proof {
        lemma_ordinal_orders(a, b);
    }
    !is_nan(a) && !is_nan(b) && ordinal(a) < ordinal(b)
}

/// `a <= b` as it holds of the two floating-point numbers.
#[verifier::when_used_as_spec(spec_le)]
pub fn le(a: u32, b: u32) -> (at_most: bool)
    ensures
        at_most == spec_le(a, b),
{
    proof {
        lemma_ordinal_orders(a, b);
    }
    !is_nan(a) && !is_nan(b) && ordinal(a) <= ordinal(b)
}

} // verus!
