//! What holds of the conversions between [`F16`] and binary32, for every
//! number and every pattern.

use vstd::prelude::*;
use vstd::arithmetic::power2::{pow2, lemma2_to64, lemma_pow2_adds, lemma_pow2_pos};
use vstd::math::abs;
use crate::F16;
use crate::binary32;
use crate::ieee;

verus! {

/// The pattern with the sign bit clear that is nearest to `size` among the
/// multiples of 2^15, the higher one where two are equally near: half a step
/// is added, and the low fifteen bits are cut off.
pub open spec fn round_abs_bits(size: u32) -> u32 {
    (((size + 0x4000) / 0x8000) * 0x8000) as u32
}

/// Among the patterns whose low fifteen bits are clear, `round_abs_bits` picks
/// one whose size is nearest to the size of the given normal pattern. Where
/// another is equally near, it picks the larger. The size it picks is within
/// a 512th of the given size.
pub proof fn lemma_round_abs_bits_is_nearest(size: u32, other: u32)
    requires
        0x0080_0000 <= size < 0x7f80_0000,
        other < 0x8000_0000,
        other % 0x8000 == 0,
    ensures
        ({
            let target = binary32::magnitude(size) as int;
            let near = abs(binary32::magnitude(round_abs_bits(size)) - target);
            let far = abs(binary32::magnitude(other) - target);
            &&& near <= far
            &&& near == far ==> binary32::magnitude(other) <= binary32::magnitude(
                round_abs_bits(size),
            )
            &&& 512 * near <= target
        }),
{
    let hidden: nat = 0x80_0000;
    let step: nat = 0x8000;
    let half: nat = 0x4000;
    let exponent = binary32::exponent_field(size);
    let rest = (size % 0x8000) as nat;
    let low = (size - rest) as u32;
    let high = (low + step) as u32;
    let p = pow2((exponent - 1) as nat);
    lemma_pow2_pos((exponent - 1) as nat);
    assert(binary32::exponent_field(low) == exponent);
    assert(binary32::fraction_field(low) + rest == binary32::fraction_field(size));
    ieee::lemma_magnitude_step(hidden, exponent, binary32::fraction_field(low), rest);
    ieee::lemma_magnitude_step(hidden, exponent, binary32::fraction_field(low), step);
    ieee::lemma_magnitude_lower(hidden, exponent, binary32::fraction_field(low));
    assert(binary32::magnitude(size) == binary32::magnitude(low) + rest * p);
    assert(binary32::magnitude(high) == binary32::magnitude(low) + step * p) by {
        if binary32::fraction_field(low) + step < hidden {
            assert(binary32::exponent_field(high) == exponent);
            assert(binary32::fraction_field(high) == binary32::fraction_field(low) + step);
        } else {
            assert(binary32::exponent_field(high) == exponent + 1);
            assert(binary32::fraction_field(high) == 0);
        }
    }
    assert(rest * p + (step - rest) * p == step * p) by (nonlinear_arith);
    assert(rest < half ==> rest * p < (step - rest) * p) by (nonlinear_arith)
        requires
            p > 0,
            step == 2 * half,
    ;
    assert(rest >= half ==> rest * p >= (step - rest) * p) by (nonlinear_arith)
        requires
            p > 0,
            step == 2 * half,
    ;
    assert(rest < half ==> 512 * (rest * p) <= hidden * p) by (nonlinear_arith)
        requires
            p > 0,
            hidden == 512 * half,
    ;
    assert(rest >= half ==> 512 * ((step - rest) * p) <= hidden * p) by (nonlinear_arith)
        requires
            p > 0,
            step == 2 * half,
            hidden == 512 * half,
    ;
    assert(round_abs_bits(size) == if rest < half { low } else { high });
    if other < low {
        binary32::lemma_magnitude_increases(other, low);
    } else if other > high {
        binary32::lemma_magnitude_increases(high, other);
    }
}

/// The pattern nearest to `src` among those whose low fifteen bits are clear:
/// the sign of `src` in front of its rounded size.
pub open spec fn round_pattern(src: u32) -> u32 {
    if binary32::is_negative(src) {
        (0x8000_0000 + round_abs_bits(binary32::abs_bits(src))) as u32
    } else {
        round_abs_bits(src)
    }
}

/// Among the patterns whose low fifteen bits are clear, `round_pattern` picks
/// one whose value is nearest to the value of the given normal pattern. Where
/// another is equally near, it picks the one farther from zero.
pub proof fn lemma_round_pattern_is_nearest(src: u32, other: u32)
    requires
        0x0080_0000 <= binary32::abs_bits(src) < 0x7f80_0000,
        binary32::abs_bits(other) % 0x8000 == 0,
    ensures
        ({
            let target = binary32::units(src);
            let near = abs(binary32::units(round_pattern(src)) - target);
            let far = abs(binary32::units(other) - target);
            &&& near <= far
            &&& near == far ==> abs(binary32::units(other)) <= abs(
                binary32::units(round_pattern(src)),
            )
            &&& 512 * near <= abs(target)
        }),
{
    let size = binary32::abs_bits(src);
    let rounded = round_pattern(src);
    lemma_round_abs_bits_is_nearest(size, binary32::abs_bits(other));
    binary32::lemma_magnitude_increases(0, size);
    assert(binary32::magnitude(0) == 0);
    binary32::lemma_magnitude_ignores_sign(src);
    binary32::lemma_magnitude_ignores_sign(other);
    binary32::lemma_magnitude_ignores_sign(rounded);
    assert(binary32::abs_bits(rounded) == round_abs_bits(size));
    assert(binary32::is_negative(rounded) == binary32::is_negative(src));
    ieee::lemma_nearest_with_signs(
        binary32::is_negative(src),
        binary32::is_negative(other),
        binary32::magnitude(size) as int,
        binary32::magnitude(round_abs_bits(size)) as int,
        binary32::magnitude(binary32::abs_bits(other)) as int,
    );
}

/// The fields of a pattern whose fraction holds eight bits at its top, before
/// and after half a step is added to it.
pub proof fn lemma_fields_of_packed(negative: bool, exponent: nat, mantissa: nat)
    requires
        exponent <= 254,
        mantissa <= 255,
    ensures
        ({
            let fraction = mantissa * 0x8000;
            let wide = binary32::pack(negative, exponent, fraction);
            let moved = (wide + 0x4000) as u32;
            &&& binary32::is_negative(wide) == negative
            &&& binary32::exponent_field(wide) == exponent
            &&& binary32::fraction_field(wide) == fraction
            &&& binary32::abs_bits(wide) == 0x80_0000 * exponent + fraction
            &&& binary32::is_negative(moved) == negative
            &&& binary32::exponent_field(moved) == exponent
            &&& binary32::fraction_field(moved) / 0x8000 == mantissa
        }),
{
    let fraction = mantissa * 0x8000;
    let low = 0x80_0000 * exponent + fraction;
    let moved = low + 0x4000;
    assert(0 <= low < 0x7f80_0000);
    assert(low / 0x80_0000 == exponent && low % 0x80_0000 == fraction);
    assert(moved / 0x80_0000 == exponent);
    assert(moved % 0x80_0000 == fraction + 0x4000);
    assert((fraction + 0x4000) / 0x8000 == mantissa);
}

impl F16 {
    /// Widening to binary32 and narrowing again gives the number back, for
    /// every number of the format.
    pub proof fn lemma_round_trip_f32(self)
        ensures
            Self::spec_try_from_f32_bits(self.to_f32_bits()) == Ok::<Self, ()>(self),
    {
        let wide = self.to_f32_bits();
        self.lemma_word_from_fields();
        self.lemma_view_from_bits();
        Self::lemma_from_bits_view(Self::ZERO_BITS);
        if self@ == 0 {
            Self::lemma_wide_zero_gives_zero_f32();
        } else {
            let biased = self.biased_exponent();
            let mantissa = self.mantissa();
            lemma_fields_of_packed(self.is_negative(), biased + 63, mantissa);
            let fraction = mantissa * 0x8000;
            assert(wide == binary32::pack(self.is_negative(), biased + 63, fraction));
            assert(binary32::is_finite(wide));
            assert(!Self::in_dead_zone_f32(wide) && Self::in_range_f32(wide)) by {
                Self::lemma_zones_by_ordinal_f32(wide);
            }
            assert(Self::round_f32_bits(wide) == Self::pack(
                self.is_negative(),
                biased,
                mantissa,
            ));
        }
    }

    /// Every pattern in the dead zone narrows to zero.
    pub proof fn lemma_dead_zone_gives_zero_f32(src: u32)
        requires
            Self::in_dead_zone_f32(src),
        ensures
            Self::spec_try_from_f32_bits(src) == Ok::<Self, ()>(
                Self::from_bits(Self::ZERO_BITS),
            ),
    {
        Self::lemma_bounds_f32();
        binary32::lemma_ordinal_orders(0x9f80_0000, src);
        binary32::lemma_ordinal_orders(src, 0x1f80_8000);
    }

    /// Both binary32 zeros lie in the dead zone, and so narrow to zero.
    pub proof fn lemma_wide_zero_gives_zero_f32()
        ensures
            Self::in_dead_zone_f32(0),
            Self::in_dead_zone_f32(0x8000_0000),
            Self::spec_try_from_f32_bits(0) == Ok::<Self, ()>(
                Self::from_bits(Self::ZERO_BITS),
            ),
            Self::spec_try_from_f32_bits(0x8000_0000) == Ok::<Self, ()>(
                Self::from_bits(Self::ZERO_BITS),
            ),
    {
        Self::lemma_zones_by_ordinal_f32(0);
        Self::lemma_zones_by_ordinal_f32(0x8000_0000);
    }

    /// A pattern above the largest number or below the smallest fails: it is
    /// neither clamped nor wrapped.
    pub proof fn lemma_out_of_range_fails_f32(src: u32)
        requires
            binary32::lt(Self::from_bits(Self::MAX_BITS).to_f32_bits(), src) || binary32::lt(
                src,
                Self::from_bits(Self::MIN_BITS).to_f32_bits(),
            ),
        ensures
            Self::spec_try_from_f32_bits(src) is Err,
    {
        if binary32::is_finite(src) {
            Self::lemma_bounds_f32();
            Self::lemma_zones_by_ordinal_f32(src);
            binary32::lemma_ordinal_orders(0x5f7f_8000, src);
            binary32::lemma_ordinal_orders(src, 0xdf7f_8000);
        }
    }

    /// The infinities and every NaN fail.
    pub proof fn lemma_not_finite_fails_f32(src: u32)
        requires
            src == binary32::INFINITY || src == binary32::NEG_INFINITY || binary32::is_nan(src),
        ensures
            Self::spec_try_from_f32_bits(src) is Err,
    {
    }

    /// Narrowing succeeds exactly on the finite patterns between the smallest
    /// and the largest number.
    pub proof fn lemma_success_f32(src: u32)
        ensures
            Self::spec_try_from_f32_bits(src) is Ok <==> binary32::is_finite(src)
                && Self::in_range_f32(src),
    {
        if binary32::is_finite(src) {
            Self::lemma_zones_by_ordinal_f32(src);
        }
    }

    /// Widening to binary32 is exact: the pattern stands for the very same
    /// number. A unit of binary32 is 2^-149 and a unit of [`F16`] is 2^-72,
    /// which is 2^77 units of binary32.
    pub proof fn lemma_widening_exact_f32(self)
        ensures
            binary32::units(self.to_f32_bits()) == self.units() * pow2(77),
            binary32::is_finite(self.to_f32_bits()),
    {
        self.lemma_word_from_fields();
        self.lemma_view_from_bits();
        Self::lemma_from_bits_view(Self::ZERO_BITS);
        let wide = self.to_f32_bits();
        if self@ == 0 {
            assert(binary32::magnitude(0) == 0);
            assert(0 * pow2(77) == 0);
        } else {
            let e = self.biased_exponent();
            let m = self.mantissa();
            lemma_fields_of_packed(self.is_negative(), e + 63, m);
            let p = pow2(e);
            let q = pow2(62);
            let step: nat = 0x8000;
            lemma_pow2_adds(e, 62);
            lemma_pow2_adds(62, 15);
            lemma2_to64();
            assert((256 * step + m * step) * (p * q) == ((256 + m) * p) * (q * step))
                by (nonlinear_arith);
            assert(binary32::magnitude(wide) == self.magnitude() * pow2(77));
            assert(-(self.magnitude() * pow2(77)) == (-(self.magnitude() as int)) * pow2(77))
                by (nonlinear_arith);
        }
    }

    /// Widening to binary32 keeps the order of the numbers.
    pub proof fn lemma_widening_keeps_order_f32(self, other: Self)
        ensures
            self.units() < other.units() <==> binary32::lt(
                self.to_f32_bits(),
                other.to_f32_bits(),
            ),
            self.units() <= other.units() <==> binary32::le(
                self.to_f32_bits(),
                other.to_f32_bits(),
            ),
    {
        self.lemma_widening_exact_f32();
        other.lemma_widening_exact_f32();
        let a = self.units();
        let b = other.units();
        let s = pow2(77);
        lemma_pow2_pos(77);
        assert((a < b) == (a * s < b * s)) by (nonlinear_arith)
            requires
                s > 0,
        ;
        assert((a <= b) == (a * s <= b * s)) by (nonlinear_arith)
            requires
                s > 0,
        ;
    }

    /// The dead zone and the range, by the numbers that bound them: a
    /// pattern that is no NaN lies in the dead zone when its value lies
    /// strictly between the largest number below zero and the smallest number
    /// above zero, and in the range when its value lies between the smallest
    /// and the largest number.
    pub proof fn lemma_zones_by_value_f32(src: u32)
        requires
            !binary32::is_nan(src),
        ensures
            Self::in_dead_zone_f32(src) <==> Self::from_bits(Self::MAX_NEGATIVE_BITS).units()
                * pow2(77) < binary32::units(src) < Self::from_bits(
                Self::MIN_POSITIVE_BITS,
            ).units() * pow2(77),
            Self::in_range_f32(src) <==> Self::from_bits(Self::MIN_BITS).units() * pow2(77)
                <= binary32::units(src) <= Self::from_bits(Self::MAX_BITS).units() * pow2(77),
    {
        Self::from_bits(Self::MAX_NEGATIVE_BITS).lemma_widening_exact_f32();
        Self::from_bits(Self::MIN_POSITIVE_BITS).lemma_widening_exact_f32();
        Self::from_bits(Self::MIN_BITS).lemma_widening_exact_f32();
        Self::from_bits(Self::MAX_BITS).lemma_widening_exact_f32();
    }

    /// The binary32 pattern of what narrowing rounds to: the sign of the
    /// source, in front of its rounded size.
    pub proof fn lemma_widening_of_rounded_f32(src: u32)
        requires
            binary32::is_finite(src),
            !Self::in_dead_zone_f32(src),
            Self::in_range_f32(src),
        ensures
            Self::round_f32_bits(src).to_f32_bits() == round_pattern(src),
            Self::round_f32_bits(src).is_negative() == binary32::is_negative(src),
            Self::round_f32_bits(src) != Self::from_bits(Self::ZERO_BITS),
    {
        Self::lemma_zones_by_ordinal_f32(src);
        Self::lemma_from_bits_view(Self::ZERO_BITS);
        let moved = (src + 0x4000) as u32;
        let negative = binary32::is_negative(moved);
        let biased = (binary32::exponent_field(moved) - 127 + 64) as nat;
        let mantissa = binary32::fraction_field(moved) / 0x8000;
        Self::lemma_fields_of_pack(negative, biased, mantissa);
        let rounded = Self::round_f32_bits(src);
        assert(rounded@ != 0) by {
            rounded.lemma_word_from_fields();
        }
    }

    /// Inside the range and outside the dead zone, narrowing from binary32
    /// rounds to nearest: no number of the format is nearer to the source
    /// than the result is. Where another number is as near as the result,
    /// the result is the one farther from zero. The result is off by no more
    /// than a 512th of the source.
    pub proof fn lemma_narrowing_is_nearest_f32(src: u32, other: Self)
        requires
            binary32::is_finite(src),
            !Self::in_dead_zone_f32(src),
            Self::in_range_f32(src),
        ensures
            ({
                let rounded = Self::round_f32_bits(src);
                let near = abs(rounded.units() * pow2(77) - binary32::units(src));
                let far = abs(other.units() * pow2(77) - binary32::units(src));
                &&& near <= far
                &&& near == far ==> abs(other.units()) <= abs(rounded.units())
                &&& 512 * near <= abs(binary32::units(src))
            }),
    {
        let rounded = Self::round_f32_bits(src);
        let wide = other.to_f32_bits();
        assert(0x0080_0000 <= binary32::abs_bits(src) < 0x7f80_0000) by {
            Self::lemma_zones_by_ordinal_f32(src);
        }
        assert(binary32::abs_bits(wide) % 0x8000 == 0) by {
            other.lemma_word_from_fields();
            other.lemma_view_from_bits();
            Self::lemma_from_bits_view(Self::ZERO_BITS);
        }
        Self::lemma_widening_of_rounded_f32(src);
        lemma_round_pattern_is_nearest(src, wide);
        rounded.lemma_widening_exact_f32();
        other.lemma_widening_exact_f32();
        let scale = pow2(77);
        lemma_pow2_pos(77);
        let a = other.units();
        let b = rounded.units();
        assert(abs(a * scale) == abs(a) * scale && abs(b * scale) == abs(b) * scale)
            by (nonlinear_arith)
            requires
                scale > 0,
        ;
        assert(abs(a) * scale <= abs(b) * scale ==> abs(a) <= abs(b)) by (nonlinear_arith)
            requires
                scale > 0,
        ;
    }
}

} // verus!
