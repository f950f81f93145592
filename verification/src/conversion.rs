//! Conversion between [`F16`] and the bit patterns of the two wider IEEE-754
//! formats. Widening is exact; narrowing rounds to the nearest number and
//! fails outside the range of the format.

use vstd::prelude::*;
use vstd::arithmetic::power2::pow2;
use crate::F16;
use crate::binary32;
use crate::binary64;

verus! {

/// Half of the weight that the last mantissa bit of an [`F16`] has in a
/// binary32 pattern: adding it before the cut rounds to nearest.
pub const HALF_STEP_32: u32 = 0x4000;

/// Half of the weight that the last mantissa bit of an [`F16`] has in a
/// binary64 pattern.
pub const HALF_STEP_64: u64 = 0x0800_0000_0000;

impl F16 {
    /// The binary32 pattern of the same number. Zero gives the all-zero
    /// pattern. Any other number keeps its sign, has its exponent stored with
    /// the bias of 127, and has its mantissa in the top eight bits of the
    /// fraction.
    pub open spec fn spec_to_f32_bits(self) -> u32 {
        if self == Self::from_bits(Self::ZERO_BITS) {
            0
        } else {
            binary32::pack(
                self.is_negative(),
                (self.spec_exponent() + 127) as nat,
                self.mantissa() * 0x8000,
            )
        }
    }

    /// Whether a binary32 pattern lies in the dead zone: strictly between the
    /// largest number below zero and the smallest number above zero.
    pub open spec fn in_dead_zone_f32(src: u32) -> bool {
        &&& binary32::lt(Self::from_bits(Self::MAX_NEGATIVE_BITS).spec_to_f32_bits(), src)
        &&& binary32::lt(src, Self::from_bits(Self::MIN_POSITIVE_BITS).spec_to_f32_bits())
    }

    /// Whether a binary32 pattern lies between the smallest and the largest
    /// number, both included.
    pub open spec fn in_range_f32(src: u32) -> bool {
        &&& binary32::le(Self::from_bits(Self::MIN_BITS).spec_to_f32_bits(), src)
        &&& binary32::le(src, Self::from_bits(Self::MAX_BITS).spec_to_f32_bits())
    }

    /// What narrowing gives for a binary32 pattern inside the range and
    /// outside the dead zone: half a step is added to the pattern, and the
    /// fields are then cut out of it. The sign is kept, the exponent changes
    /// its bias from 127 to 64, and the top eight bits of the fraction make
    /// the mantissa.
    pub open spec fn round_f32_bits(src: u32) -> Self {
        let rounded = (src + HALF_STEP_32) as u32;
        Self::pack(
            binary32::is_negative(rounded),
            (binary32::exponent_field(rounded) - 127 + 64) as nat,
            binary32::fraction_field(rounded) / 0x8000,
        )
    }

    /// The number that a binary32 pattern narrows to, or the failure.
    pub open spec fn spec_try_from_f32_bits(src: u32) -> Result<Self, ()> {
        if !binary32::is_finite(src) {
            Err(())
        } else if Self::in_dead_zone_f32(src) {
            Ok(Self::from_bits(Self::ZERO_BITS))
        } else if Self::in_range_f32(src) {
            Ok(Self::round_f32_bits(src))
        } else {
            Err(())
        }
    }

    /// The binary32 patterns of the four numbers that bound the dead zone and
    /// the range.
    pub proof fn lemma_bounds_f32()
        ensures
            Self::from_bits(Self::MAX_NEGATIVE_BITS).to_f32_bits() == 0x9f80_0000,
            Self::from_bits(Self::MIN_POSITIVE_BITS).to_f32_bits() == 0x1f80_8000,
            Self::from_bits(Self::MIN_BITS).to_f32_bits() == 0xdf7f_8000,
            Self::from_bits(Self::MAX_BITS).to_f32_bits() == 0x5f7f_8000,
    {
        Self::lemma_from_bits_view(Self::ZERO_BITS);
        Self::lemma_from_bits_view(Self::MAX_NEGATIVE_BITS);
        Self::lemma_from_bits_view(Self::MIN_POSITIVE_BITS);
        Self::lemma_from_bits_view(Self::MIN_BITS);
        Self::lemma_from_bits_view(Self::MAX_BITS);
    }

    /// The dead zone and the range, read off the pattern: its ordinal lies
    /// between the ordinals of the bounds.
    pub proof fn lemma_zones_by_ordinal_f32(src: u32)
        requires
            binary32::is_finite(src),
        ensures
            Self::in_dead_zone_f32(src) <==> -0x1f80_0000 < binary32::spec_ordinal(src)
                < 0x1f80_8000,
            Self::in_range_f32(src) <==> -0x5f7f_8000 <= binary32::spec_ordinal(src)
                <= 0x5f7f_8000,
    {
        Self::lemma_bounds_f32();
        binary32::lemma_ordinal_orders(0x9f80_0000, src);
        binary32::lemma_ordinal_orders(src, 0x1f80_8000);
        binary32::lemma_ordinal_orders(0xdf7f_8000, src);
        binary32::lemma_ordinal_orders(src, 0x5f7f_8000);
    }

    /// Widens to binary32. This never fails and loses nothing: the pattern
    /// is finite and stands for the very same number. (A unit of [`F16`] is
    /// 2^77 units of binary32.)
    #[verifier::when_used_as_spec(spec_to_f32_bits)]
    pub fn to_f32_bits(self) -> (bits: u32)
        ensures
            bits == self.spec_to_f32_bits(),
            binary32::is_finite(bits),
            binary32::units(bits) == self.units() * pow2(77),
    {
        proof {
            self.lemma_widening_exact_f32();
        }
        if self == Self::zero() {
            0
        } else {
            let sign = self.sign_bit() as u32;
            let exponent = (self.exponent() + binary32::EXPONENT_BIAS) as u32;
            let mantissa = self.mantissa_bits() as u32;
            assert((sign << 16) | (exponent << 23) | (mantissa << 15) == (if sign == 0x8000 {
                0x8000_0000u32
            } else {
                0
            }) + 0x80_0000 * exponent + mantissa * 0x8000) by (bit_vector)
                requires
                    sign == 0 || sign == 0x8000,
                    exponent <= 190,
                    mantissa <= 255,
            ;
            let sign_bit = sign << 16;
            let exponent_bits = exponent << 23;
            let mantissa_bits = mantissa << 15;
            sign_bit | exponent_bits | mantissa_bits
        }
    }

    /// Narrows a binary32 pattern. A pattern that is not finite fails. A
    /// finite one in the dead zone gives zero; another one inside the range is
    /// rounded to the nearest number; one outside the range fails.
    pub fn try_from_f32_bits(src: u32) -> (result: Result<Self, ()>)
        ensures
            result == Self::spec_try_from_f32_bits(src),
            result is Ok <==> binary32::is_finite(src) && Self::in_range_f32(src),
    {
        if binary32::is_finite(src) {
            proof {
                Self::lemma_zones_by_ordinal_f32(src);
            }
            if binary32::lt(Self::max_negative().to_f32_bits(), src) && binary32::lt(
                src,
                Self::min_positive().to_f32_bits(),
            ) {
                return Ok(Self::zero());
            } else if binary32::le(Self::min_value().to_f32_bits(), src) && binary32::le(
                src,
                Self::max_value().to_f32_bits(),
            ) {
                // the exponent is bounded, so overflow is impossible
                let rounded_bits = src + HALF_STEP_32;
                assert(((rounded_bits >> 31) as u16) << 15 == if rounded_bits >= 0x8000_0000 {
                    0x8000u16
                } else {
                    0
                }) by (bit_vector);
                assert((rounded_bits >> 23) & 0xff == (rounded_bits / 0x80_0000) % 256)
                    by (bit_vector);
                assert((rounded_bits >> 15) & 0xff == (rounded_bits % 0x80_0000) / 0x8000)
                    by (bit_vector);
                let sign_bit = ((rounded_bits >> 31) as u16) << 15;
                let exponent = ((rounded_bits >> 23) & 0xff) as i32 - binary32::EXPONENT_BIAS;
                let biased = (exponent + Self::EXPONENT_BIAS) as u16;
                let exponent_bits = biased << 8;
                let mantissa_bits = ((rounded_bits >> 15) & 0xff) as u16;
                assert(sign_bit | (biased << 8) | mantissa_bits == sign_bit + 256 * biased
                    + mantissa_bits) by (bit_vector)
                    requires
                        sign_bit == 0 || sign_bit == 0x8000,
                        biased <= 127,
                        mantissa_bits <= 255,
                ;
                return Ok(Self::from_bits(sign_bit | exponent_bits | mantissa_bits));
            }
        }
        Err(())
    }
}

impl F16 {
    /// The binary64 pattern of the same number. Zero gives the all-zero
    /// pattern. Any other number keeps its sign, has its exponent stored with
    /// the bias of 1023, and has its mantissa in the top eight bits of the
    /// fraction.
    pub open spec fn spec_to_f64_bits(self) -> u64 {
        if self == Self::from_bits(Self::ZERO_BITS) {
            0
        } else {
            binary64::pack(
                self.is_negative(),
                (self.spec_exponent() + 1023) as nat,
                self.mantissa() * 0x1000_0000_0000,
            )
        }
    }

    /// Whether a binary64 pattern lies in the dead zone: strictly between the
    /// largest number below zero and the smallest number above zero.
    pub open spec fn in_dead_zone_f64(src: u64) -> bool {
        &&& binary64::lt(Self::from_bits(Self::MAX_NEGATIVE_BITS).spec_to_f64_bits(), src)
        &&& binary64::lt(src, Self::from_bits(Self::MIN_POSITIVE_BITS).spec_to_f64_bits())
    }

    /// Whether a binary64 pattern lies between the smallest and the largest
    /// number, both included.
    pub open spec fn in_range_f64(src: u64) -> bool {
        &&& binary64::le(Self::from_bits(Self::MIN_BITS).spec_to_f64_bits(), src)
        &&& binary64::le(src, Self::from_bits(Self::MAX_BITS).spec_to_f64_bits())
    }

    /// What narrowing gives for a binary64 pattern inside the range and
    /// outside the dead zone: half a step is added to the pattern, and the
    /// fields are then cut out of it. The sign is kept, the exponent changes
    /// its bias from 1023 to 64, and the top eight bits of the fraction make
    /// the mantissa.
    pub open spec fn round_f64_bits(src: u64) -> Self {
        let rounded = (src + HALF_STEP_64) as u64;
        Self::pack(
            binary64::is_negative(rounded),
            (binary64::exponent_field(rounded) - 1023 + 64) as nat,
            binary64::fraction_field(rounded) / 0x1000_0000_0000,
        )
    }

    /// The number that a binary64 pattern narrows to, or the failure.
    pub open spec fn spec_try_from_f64_bits(src: u64) -> Result<Self, ()> {
        if !binary64::is_finite(src) {
            Err(())
        } else if Self::in_dead_zone_f64(src) {
            Ok(Self::from_bits(Self::ZERO_BITS))
        } else if Self::in_range_f64(src) {
            Ok(Self::round_f64_bits(src))
        } else {
            Err(())
        }
    }

    /// The binary64 patterns of the four numbers that bound the dead zone and
    /// the range.
    pub proof fn lemma_bounds_f64()
        ensures
            Self::from_bits(Self::MAX_NEGATIVE_BITS).to_f64_bits() == 0xbbf0_0000_0000_0000,
            Self::from_bits(Self::MIN_POSITIVE_BITS).to_f64_bits() == 0x3bf0_1000_0000_0000,
            Self::from_bits(Self::MIN_BITS).to_f64_bits() == 0xc3ef_f000_0000_0000,
            Self::from_bits(Self::MAX_BITS).to_f64_bits() == 0x43ef_f000_0000_0000,
    {
        Self::lemma_from_bits_view(Self::ZERO_BITS);
        Self::lemma_from_bits_view(Self::MAX_NEGATIVE_BITS);
        Self::lemma_from_bits_view(Self::MIN_POSITIVE_BITS);
        Self::lemma_from_bits_view(Self::MIN_BITS);
        Self::lemma_from_bits_view(Self::MAX_BITS);
    }

    /// The dead zone and the range, read off the pattern: its ordinal lies
    /// between the ordinals of the bounds.
    pub proof fn lemma_zones_by_ordinal_f64(src: u64)
        requires
            binary64::is_finite(src),
        ensures
            Self::in_dead_zone_f64(src) <==> -0x3bf0_0000_0000_0000 < binary64::spec_ordinal(src)
                < 0x3bf0_1000_0000_0000,
            Self::in_range_f64(src) <==> -0x43ef_f000_0000_0000 <= binary64::spec_ordinal(src)
                <= 0x43ef_f000_0000_0000,
    {
        Self::lemma_bounds_f64();
        binary64::lemma_ordinal_orders(0xbbf0_0000_0000_0000, src);
        binary64::lemma_ordinal_orders(src, 0x3bf0_1000_0000_0000);
        binary64::lemma_ordinal_orders(0xc3ef_f000_0000_0000, src);
        binary64::lemma_ordinal_orders(src, 0x43ef_f000_0000_0000);
    }

    /// Widens to binary64. This never fails and loses nothing: the pattern
    /// is finite and stands for the very same number. (A unit of [`F16`] is
    /// 2^1002 units of binary64.)
    #[verifier::when_used_as_spec(spec_to_f64_bits)]
    pub fn to_f64_bits(self) -> (bits: u64)
        ensures
            bits == self.spec_to_f64_bits(),
            binary64::is_finite(bits),
            binary64::units(bits) == self.units() * pow2(1002),
    {
        proof {
            self.lemma_widening_exact_f64();
        }
        if self == Self::zero() {
            0
        } else {
            let sign = self.sign_bit() as u64;
            let exponent = (self.exponent() + binary64::EXPONENT_BIAS) as u64;
            let mantissa = self.mantissa_bits() as u64;
            assert((sign << 48) | (exponent << 52) | (mantissa << 44) == (if sign == 0x8000 {
                0x8000_0000_0000_0000u64
            } else {
                0
            }) + 0x10_0000_0000_0000 * exponent + mantissa * 0x1000_0000_0000) by (bit_vector)
                requires
                    sign == 0 || sign == 0x8000,
                    exponent <= 1086,
                    mantissa <= 255,
            ;
            let sign_bit = sign << 48;
            let exponent_bits = exponent << 52;
            let mantissa_bits = mantissa << 44;
            sign_bit | exponent_bits | mantissa_bits
        }
    }

    /// Narrows a binary64 pattern. A pattern that is not finite fails. A
    /// finite one in the dead zone gives zero; another one inside the range is
    /// rounded to the nearest number; one outside the range fails.
    pub fn try_from_f64_bits(src: u64) -> (result: Result<Self, ()>)
        ensures
            result == Self::spec_try_from_f64_bits(src),
            result is Ok <==> binary64::is_finite(src) && Self::in_range_f64(src),
    {
        if binary64::is_finite(src) {
            proof {
                Self::lemma_zones_by_ordinal_f64(src);
            }
            if binary64::lt(Self::max_negative().to_f64_bits(), src) && binary64::lt(
                src,
                Self::min_positive().to_f64_bits(),
            ) {
                return Ok(Self::zero());
            } else if binary64::le(Self::min_value().to_f64_bits(), src) && binary64::le(
                src,
                Self::max_value().to_f64_bits(),
            ) {
                // the exponent is bounded, so overflow is impossible
                let rounded_bits = src + HALF_STEP_64;
                assert(((rounded_bits >> 63) as u16) << 15 == if rounded_bits
                    >= 0x8000_0000_0000_0000 {
                    0x8000u16
                } else {
                    0
                }) by (bit_vector);
                assert((rounded_bits >> 52) & 0x7ff == (rounded_bits / 0x10_0000_0000_0000)
                    % 2048) by (bit_vector);
                assert((rounded_bits >> 44) & 0xff == (rounded_bits % 0x10_0000_0000_0000)
                    / 0x1000_0000_0000) by (bit_vector);
                let sign_bit = ((rounded_bits >> 63) as u16) << 15;
                let exponent = ((rounded_bits >> 52) & 0x7ff) as i32 - binary64::EXPONENT_BIAS;
                let biased = (exponent + Self::EXPONENT_BIAS) as u16;
                let exponent_bits = biased << 8;
                let mantissa_bits = ((rounded_bits >> 44) & 0xff) as u16;
                assert(sign_bit | (biased << 8) | mantissa_bits == sign_bit + 256 * biased
                    + mantissa_bits) by (bit_vector)
                    requires
                        sign_bit == 0 || sign_bit == 0x8000,
                        biased <= 127,
                        mantissa_bits <= 255,
                ;
                return Ok(Self::from_bits(sign_bit | exponent_bits | mantissa_bits));
            }
        }
        Err(())
    }
}

} // verus!
