//! A compact 16-bit floating-point format: one sign bit, seven exponent bits
//! with a bias of 64, and eight mantissa bits. It has no infinities, no NaN
//! and no subnormal numbers; every 16-bit word is a number.

use vstd::prelude::*;
use vstd::arithmetic::power2::pow2;

pub mod ieee;
pub mod binary32;
pub mod binary64;
pub mod conversion;
pub mod laws32;
pub mod laws64;
pub mod range;

verus! {

/// x = (-1)^(sign) * 2^(exponent - 64) * 1.(mantissa)
///
/// The all-zero word is the exception: it stands for zero.
#[derive(Copy, Clone, PartialEq, Eq, Structural)]
pub struct F16 {
    bits: u16,
}

impl View for F16 {
    type V = u16;

    /// The packed word: sign in bit 15, exponent in bits 8 to 14, mantissa in
    /// bits 0 to 7.
    closed spec fn view(&self) -> u16 {
        self.bits
    }
}

impl F16 {
    pub const SIGN_MASK: u16 = 0b1000_0000_0000_0000;

    pub const EXPONENT_MASK: u16 = 0b0111_1111_0000_0000;

    pub const EXPONENT_BIAS: i32 = 64;

    pub const MANTISSA_MASK: u16 = 0b0000_0000_1111_1111;

    pub const MANTISSA_BITS: u32 = 8;

    /// The word of zero.
    pub const ZERO_BITS: u16 = 0;

    /// The word of the largest number.
    pub const MAX_BITS: u16 = 0b0111_1111_1111_1111;

    /// The word of the smallest (most negative) number.
    pub const MIN_BITS: u16 = 0b1111_1111_1111_1111;

    /// The word of the smallest number above zero.
    pub const MIN_POSITIVE_BITS: u16 = 0b0000_0000_0000_0001;

    /// The word of the largest number below zero.
    pub const MAX_NEGATIVE_BITS: u16 = 0b1000_0000_0000_0000;

    /// Whether the sign bit is set.
    pub open spec fn is_negative(self) -> bool {
        self@ >= 0x8000
    }

    /// The exponent field as stored, between 0 and 127.
    pub open spec fn biased_exponent(self) -> nat {
        ((self@ / 256) % 128) as nat
    }

    /// The exponent with the bias taken off, between -64 and 63.
    pub open spec fn spec_exponent(self) -> int {
        self.biased_exponent() - 64
    }

    /// The eight stored mantissa bits as a number between 0 and 255.
    pub open spec fn mantissa(self) -> nat {
        (self@ % 256) as nat
    }

    /// The size of the number, counted in units of 2^-72. The sign is left
    /// out. With the implicit leading one the significand is
    /// `256 + mantissa`, and it is scaled by two to the stored exponent.
    pub open spec fn magnitude(self) -> nat {
        if self@ == 0 {
            0
        } else {
            (256 + self.mantissa()) * pow2(self.biased_exponent())
        }
    }

    /// The number itself, counted in units of 2^-72: every number of the
    /// format is a whole multiple of that unit.
    pub open spec fn units(self) -> int {
        if self.is_negative() {
            -(self.magnitude() as int)
        } else {
            self.magnitude() as int
        }
    }

    /// The number with the given word.
    pub closed spec fn spec_from_bits(bits: u16) -> Self {
        Self { bits }
    }

    /// The number with the given fields: sign, stored exponent, mantissa.
    pub open spec fn pack(negative: bool, biased_exponent: nat, mantissa: nat) -> Self
        recommends
            biased_exponent <= 127,
            mantissa <= 255,
    {
        Self::spec_from_bits(
            ((if negative { 0x8000int } else { 0 }) + 256 * biased_exponent + mantissa) as u16,
        )
    }

    /// Zero: the all-zero word.
    pub fn zero() -> (value: Self)
        ensures
            value == Self::from_bits(Self::ZERO_BITS),
    {
        Self { bits: Self::ZERO_BITS }
    }

    /// The largest number, `2^63 * (1 + 255/256)`.
    pub fn max_value() -> (value: Self)
        ensures
            value == Self::from_bits(Self::MAX_BITS),
    {
        Self { bits: Self::MAX_BITS }
    }

    /// The smallest number, `-2^63 * (1 + 255/256)`.
    pub fn min_value() -> (value: Self)
        ensures
            value == Self::from_bits(Self::MIN_BITS),
    {
        Self { bits: Self::MIN_BITS }
    }

    /// The smallest number above zero, `2^-64 * (1 + 1/256)`.
    pub fn min_positive() -> (value: Self)
        ensures
            value == Self::from_bits(Self::MIN_POSITIVE_BITS),
    {
        Self { bits: Self::MIN_POSITIVE_BITS }
    }

    /// The largest number below zero, `-2^-64`.
    pub fn max_negative() -> (value: Self)
        ensures
            value == Self::from_bits(Self::MAX_NEGATIVE_BITS),
    {
        Self { bits: Self::MAX_NEGATIVE_BITS }
    }

    /// The word of the number.
    #[must_use]
    pub fn to_bits(self) -> (bits: u16)
        ensures
            bits == self@,
    {
        self.bits
    }

    /// The number with the given word. Every word is a number.
    #[must_use]
    #[verifier::when_used_as_spec(spec_from_bits)]
    pub fn from_bits(bits: u16) -> (value: Self)
        ensures
            value == Self::spec_from_bits(bits),
            value@ == bits,
    {
        Self { bits }
    }

    /// The exponent, without its bias.
    pub fn exponent(self) -> (exponent: i32)
        ensures
            exponent == self.spec_exponent(),
            -64 <= exponent <= 63,
    {
        let word = self.to_bits();
        assert((word & 0x7f00) >> 8 == (word / 256) % 128) by (bit_vector);
        ((word & Self::EXPONENT_MASK) >> Self::MANTISSA_BITS) as i32 - Self::EXPONENT_BIAS
    }

    /// The sign bit, left in its place: `0x8000` for a set sign bit, else 0.
    pub fn sign_bit(self) -> (bit: u16)
        ensures
            bit == if self.is_negative() { 0x8000u16 } else { 0u16 },
    {
        let word = self.to_bits();
        assert(word & 0x8000 == if word >= 0x8000 { 0x8000u16 } else { 0u16 }) by (bit_vector);
        word & Self::SIGN_MASK
    }

    /// The mantissa bits, in the low byte.
    pub fn mantissa_bits(self) -> (bits: u16)
        ensures
            bits == self.mantissa(),
    {
        let word = self.to_bits();
        assert(word & 0xff == word % 256) by (bit_vector);
        word & Self::MANTISSA_MASK
    }

    /// Two numbers are equal exactly when their words are equal.
    pub proof fn lemma_equal_iff_same_word(self, other: Self)
        ensures
            self == other <==> self@ == other@,
    {
    }

    /// A number made from a word has that word.
    pub proof fn lemma_from_bits_view(bits: u16)
        ensures
            Self::from_bits(bits)@ == bits,
    {
    }

    /// A number is the one made from its word.
    pub proof fn lemma_view_from_bits(self)
        ensures
            Self::from_bits(self@) == self,
    {
    }

    /// The three fields make up the word, and nothing else does.
    pub proof fn lemma_word_from_fields(self)
        ensures
            self@ == (if self.is_negative() { 0x8000int } else { 0 })
                + 256 * self.biased_exponent() + self.mantissa(),
            self.biased_exponent() <= 127,
            self.mantissa() <= 255,
            self == Self::pack(self.is_negative(), self.biased_exponent(), self.mantissa()),
    {
    }

    /// A number packed from fields has those fields.
    pub proof fn lemma_fields_of_pack(negative: bool, biased_exponent: nat, mantissa: nat)
        requires
            biased_exponent <= 127,
            mantissa <= 255,
        ensures
            Self::pack(negative, biased_exponent, mantissa).is_negative() == negative,
            Self::pack(negative, biased_exponent, mantissa).biased_exponent() == biased_exponent,
            Self::pack(negative, biased_exponent, mantissa).mantissa() == mantissa,
    {
    }
}

} // verus!
