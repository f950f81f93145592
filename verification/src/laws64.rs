//! What holds of the conversions between [`F16`] and binary64, for every
//! number and every pattern.

use vstd::prelude::*;
use vstd::arithmetic::power2::{pow2, lemma2_to64_rest, lemma_pow2_adds, lemma_pow2_pos};
use vstd::math::abs;
use crate::F16;
use crate::binary64;
use crate::ieee;

verus! {

/// The pattern with the sign bit clear that is nearest to `size` among the
/// multiples of 2^44, the higher one where two are equally near: half a step
/// is added, and the low 44 bits are cut off.
pub open spec fn round_abs_bits(size: u64) -> u64 {
    (((size + 0x0800_0000_0000) / 0x1000_0000_0000) * 0x1000_0000_0000) as u64
}

/// Among the patterns whose low 44 bits are clear, `round_abs_bits` picks
/// one whose size is nearest to the size of the given normal pattern. Where
/// another is equally near, it picks the larger. The size it picks is within
/// a 512th of the given size.
pub proof fn lemma_round_abs_bits_is_nearest(size: u64, other: u64)
    requires
        0x0010_0000_0000_0000 <= size < 0x7ff0_0000_0000_0000,
        other < 0x8000_0000_0000_0000,
        other % 0x1000_0000_0000 == 0,
    ensures
        ({
            let target = binary64::magnitude(size) as int;
            let near = abs(binary64::magnitude(round_abs_bits(size)) - target);
            let far = abs(binary64::magnitude(other) - target);
            &&& near <= far
            &&& near == far ==> binary64::magnitude(other) <= binary64::magnitude(
                round_abs_bits(size),
            )
            &&& 512 * near <= target
        }),
{
    let hidden: nat = 0x10_0000_0000_0000;
    let step: nat = 0x1000_0000_0000;
    let half: nat = 0x0800_0000_0000;
    let exponent = binary64::exponent_field(size);
    let rest = (size % 0x1000_0000_0000) as nat;
    let low = (size - rest) as u64;
    let high = (low + step) as u64;
    let p = pow2((exponent - 1) as nat);
    lemma_pow2_pos((exponent - 1) as nat);
    assert(binary64::exponent_field(low) == exponent);
    assert(binary64::fraction_field(low) + rest == binary64::fraction_field(size));
    ieee::lemma_magnitude_step(hidden, exponent, binary64::fraction_field(low), rest);
    ieee::lemma_magnitude_step(hidden, exponent, binary64::fraction_field(low), step);
    ieee::lemma_magnitude_lower(hidden, exponent, binary64::fraction_field(low));
    assert(binary64::magnitude(size) == binary64::magnitude(low) + rest * p);
    assert(binary64::magnitude(high) == binary64::magnitude(low) + step * p) by {
        if binary64::fraction_field(low) + step < hidden {
            assert(binary64::exponent_field(high) == exponent);
            assert(binary64::fraction_field(high) == binary64::fraction_field(low) + step);
        } else {
            assert(binary64::exponent_field(high) == exponent + 1);
            assert(binary64::fraction_field(high) == 0);
        }
    }
    assert(rest * p + (step - rest) * p == step * p) by (nonlinear_arith);
    assert(rest < half ==> rest * p < (step - rest) * p) by (nonlinear_arith)
        requires
            p > 0,
            step == 2 * half,
    ;
    assert(rest >= half ==> rest * p >= (step - rest) * p) by (nonlinear_arith)
        requires
            p > 0,
            step == 2 * half,
    ;
    assert(rest < half ==> 512 * (rest * p) <= hidden * p) by (nonlinear_arith)
        requires
            p > 0,
            hidden == 512 * half,
    ;
    assert(rest >= half ==> 512 * ((step - rest) * p) <= hidden * p) by (nonlinear_arith)
        requires
            p > 0,
            step == 2 * half,
            hidden == 512 * half,
    ;
    assert(round_abs_bits(size) == if rest < half { low } else { high });
    if other < low {
        binary64::lemma_magnitude_increases(other, low);
    } else if other > high {
        binary64::lemma_magnitude_increases(high, other);
    }
}

/// The pattern nearest to `src` among those whose low 44 bits are clear:
/// the sign of `src` in front of its rounded size.
pub open spec fn round_pattern(src: u64) -> u64 {
    if binary64::is_negative(src) {
        (0x8000_0000_0000_0000 + round_abs_bits(binary64::abs_bits(src))) as u64
    } else {
        round_abs_bits(src)
    }
}

/// Among the patterns whose low 44 bits are clear, `round_pattern` picks
/// one whose value is nearest to the value of the given normal pattern. Where
/// another is equally near, it picks the one farther from zero.
pub proof fn lemma_round_pattern_is_nearest(src: u64, other: u64)
    requires
        0x0010_0000_0000_0000 <= binary64::abs_bits(src) < 0x7ff0_0000_0000_0000,
        binary64::abs_bits(other) % 0x1000_0000_0000 == 0,
    ensures
        ({
            let target = binary64::units(src);
            let near = abs(binary64::units(round_pattern(src)) - target);
            let far = abs(binary64::units(other) - target);
            &&& near <= far
            &&& near == far ==> abs(binary64::units(other)) <= abs(
                binary64::units(round_pattern(src)),
            )
            &&& 512 * near <= abs(target)
        }),
{
    let size = binary64::abs_bits(src);
    let rounded = round_pattern(src);
    lemma_round_abs_bits_is_nearest(size, binary64::abs_bits(other));
    binary64::lemma_magnitude_increases(0, size);
    assert(binary64::magnitude(0) == 0);
    binary64::lemma_magnitude_ignores_sign(src);
    binary64::lemma_magnitude_ignores_sign(other);
    binary64::lemma_magnitude_ignores_sign(rounded);
    assert(binary64::abs_bits(rounded) == round_abs_bits(size));
    assert(binary64::is_negative(rounded) == binary64::is_negative(src));
    ieee::lemma_nearest_with_signs(
        binary64::is_negative(src),
        binary64::is_negative(other),
        binary64::magnitude(size) as int,
        binary64::magnitude(round_abs_bits(size)) as int,
        binary64::magnitude(binary64::abs_bits(other)) as int,
    );
}

/// The fields of a pattern whose fraction holds eight bits at its top, before
/// and after half a step is added to it.
pub proof fn lemma_fields_of_packed(negative: bool, exponent: nat, mantissa: nat)
    requires
        exponent <= 2046,
        mantissa <= 255,
    ensures
        ({
            let fraction = mantissa * 0x1000_0000_0000;
            let wide = binary64::pack(negative, exponent, fraction);
            let moved = (wide + 0x0800_0000_0000) as u64;
            &&& binary64::is_negative(wide) == negative
            &&& binary64::exponent_field(wide) == exponent
            &&& binary64::fraction_field(wide) == fraction
            &&& binary64::abs_bits(wide) == 0x10_0000_0000_0000 * exponent + fraction
            &&& binary64::is_negative(moved) == negative
            &&& binary64::exponent_field(moved) == exponent
            &&& binary64::fraction_field(moved) / 0x1000_0000_0000 == mantissa
        }),
{
    let fraction = mantissa * 0x1000_0000_0000;
    let low = 0x10_0000_0000_0000 * exponent + fraction;
    let moved = low + 0x0800_0000_0000;
    assert(0 <= low < 0x7ff0_0000_0000_0000);
    assert(low / 0x10_0000_0000_0000 == exponent && low % 0x10_0000_0000_0000 == fraction);
    assert(moved / 0x10_0000_0000_0000 == exponent);
    assert(moved % 0x10_0000_0000_0000 == fraction + 0x0800_0000_0000);
    assert((fraction + 0x0800_0000_0000) / 0x1000_0000_0000 == mantissa);
}

impl F16 {
    /// Widening to binary64 and narrowing again gives the number back, for
    /// every number of the format.
    pub proof fn lemma_round_trip_f64(self)
        ensures
            Self::spec_try_from_f64_bits(self.to_f64_bits()) == Ok::<Self, ()>(self),
    {
        let wide = self.to_f64_bits();
        self.lemma_word_from_fields();
        self.lemma_view_from_bits();
        Self::lemma_from_bits_view(Self::ZERO_BITS);
        if self@ == 0 {
            Self::lemma_wide_zero_gives_zero_f64();
        } else {
            let biased = self.biased_exponent();
            let mantissa = self.mantissa();
            lemma_fields_of_packed(self.is_negative(), biased + 959, mantissa);
            let fraction = mantissa * 0x1000_0000_0000;
            assert(wide == binary64::pack(self.is_negative(), biased + 959, fraction));
            assert(binary64::is_finite(wide));
            assert(!Self::in_dead_zone_f64(wide) && Self::in_range_f64(wide)) by {
                Self::lemma_zones_by_ordinal_f64(wide);
            }
            assert(Self::round_f64_bits(wide) == Self::pack(
                self.is_negative(),
                biased,
                mantissa,
            ));
        }
    }

    /// Every pattern in the dead zone narrows to zero.
    pub proof fn lemma_dead_zone_gives_zero_f64(src: u64)
        requires
            Self::in_dead_zone_f64(src),
        ensures
            Self::spec_try_from_f64_bits(src) == Ok::<Self, ()>(
                Self::from_bits(Self::ZERO_BITS),
            ),
    {
        Self::lemma_bounds_f64();
        binary64::lemma_ordinal_orders(0xbbf0_0000_0000_0000, src);
        binary64::lemma_ordinal_orders(src, 0x3bf0_1000_0000_0000);
    }

    /// Both binary64 zeros lie in the dead zone, and so narrow to zero.
    pub proof fn lemma_wide_zero_gives_zero_f64()
        ensures
            Self::in_dead_zone_f64(0),
            Self::in_dead_zone_f64(0x8000_0000_0000_0000),
            Self::spec_try_from_f64_bits(0) == Ok::<Self, ()>(
                Self::from_bits(Self::ZERO_BITS),
            ),
            Self::spec_try_from_f64_bits(0x8000_0000_0000_0000) == Ok::<Self, ()>(
                Self::from_bits(Self::ZERO_BITS),
            ),
    {
        Self::lemma_zones_by_ordinal_f64(0);
        Self::lemma_zones_by_ordinal_f64(0x8000_0000_0000_0000);
    }

    /// A pattern above the largest number or below the smallest fails: it is
    /// neither clamped nor wrapped.
    pub proof fn lemma_out_of_range_fails_f64(src: u64)
        requires
            binary64::lt(Self::from_bits(Self::MAX_BITS).to_f64_bits(), src) || binary64::lt(
                src,
                Self::from_bits(Self::MIN_BITS).to_f64_bits(),
            ),
        ensures
            Self::spec_try_from_f64_bits(src) is Err,
    {
        if binary64::is_finite(src) {
            Self::lemma_bounds_f64();
            Self::lemma_zones_by_ordinal_f64(src);
            binary64::lemma_ordinal_orders(0x43ef_f000_0000_0000, src);
            binary64::lemma_ordinal_orders(src, 0xc3ef_f000_0000_0000);
        }
    }

    /// The infinities and every NaN fail.
    pub proof fn lemma_not_finite_fails_f64(src: u64)
        requires
            src == binary64::INFINITY || src == binary64::NEG_INFINITY || binary64::is_nan(src),
        ensures
            Self::spec_try_from_f64_bits(src) is Err,
    {
    }

    /// Narrowing succeeds exactly on the finite patterns between the smallest
    /// and the largest number.
    pub proof fn lemma_success_f64(src: u64)
        ensures
            Self::spec_try_from_f64_bits(src) is Ok <==> binary64::is_finite(src)
                && Self::in_range_f64(src),
    {
        if binary64::is_finite(src) {
            Self::lemma_zones_by_ordinal_f64(src);
        }
    }

    /// Widening to binary64 is exact: the pattern stands for the very same
    /// number. A unit of binary64 is 2^-1074 and a unit of [`F16`] is 2^-72,
    /// which is 2^1002 units of binary64.
    pub proof fn lemma_widening_exact_f64(self)
        ensures
            binary64::units(self.to_f64_bits()) == self.units() * pow2(1002),
            binary64::is_finite(self.to_f64_bits()),
    {
        self.lemma_word_from_fields();
        self.lemma_view_from_bits();
        Self::lemma_from_bits_view(Self::ZERO_BITS);
        let wide = self.to_f64_bits();
        if self@ == 0 {
            assert(binary64::magnitude(0) == 0);
            assert(0 * pow2(1002) == 0);
        } else {
            let e = self.biased_exponent();
            let m = self.mantissa();
            lemma_fields_of_packed(self.is_negative(), e + 959, m);
            let p = pow2(e);
            let q = pow2(958);
            let step: nat = 0x1000_0000_0000;
            lemma_pow2_adds(e, 958);
            lemma_pow2_adds(958, 44);
            lemma2_to64_rest();
            assert((256 * step + m * step) * (p * q) == ((256 + m) * p) * (q * step))
                by (nonlinear_arith);
            assert(binary64::magnitude(wide) == self.magnitude() * pow2(1002));
            assert(-(self.magnitude() * pow2(1002)) == (-(self.magnitude() as int)) * pow2(1002))
                by (nonlinear_arith);
        }
    }

    /// Widening to binary64 keeps the order of the numbers.
    pub proof fn lemma_widening_keeps_order_f64(self, other: Self)
        ensures
            self.units() < other.units() <==> binary64::lt(
                self.to_f64_bits(),
                other.to_f64_bits(),
            ),
            self.units() <= other.units() <==> binary64::le(
                self.to_f64_bits(),
                other.to_f64_bits(),
            ),
    {
        self.lemma_widening_exact_f64();
        other.lemma_widening_exact_f64();
        let a = self.units();
        let b = other.units();
        let s = pow2(1002);
        lemma_pow2_pos(1002);
        assert((a < b) == (a * s < b * s)) by (nonlinear_arith)
            requires
                s > 0,
        ;
        assert((a <= b) == (a * s <= b * s)) by (nonlinear_arith)
            requires
                s > 0,
        ;
    }

    /// The dead zone and the range, by the numbers that bound them: a
    /// pattern that is no NaN lies in the dead zone when its value lies
    /// strictly between the largest number below zero and the smallest number
    /// above zero, and in the range when its value lies between the smallest
    /// and the largest number.
    pub proof fn lemma_zones_by_value_f64(src: u64)
        requires
            !binary64::is_nan(src),
        ensures
            Self::in_dead_zone_f64(src) <==> Self::from_bits(Self::MAX_NEGATIVE_BITS).units()
                * pow2(1002) < binary64::units(src) < Self::from_bits(
                Self::MIN_POSITIVE_BITS,
            ).units() * pow2(1002),
            Self::in_range_f64(src) <==> Self::from_bits(Self::MIN_BITS).units() * pow2(1002)
                <= binary64::units(src) <= Self::from_bits(Self::MAX_BITS).units() * pow2(1002),
    {
        Self::from_bits(Self::MAX_NEGATIVE_BITS).lemma_widening_exact_f64();
        Self::from_bits(Self::MIN_POSITIVE_BITS).lemma_widening_exact_f64();
        Self::from_bits(Self::MIN_BITS).lemma_widening_exact_f64();
        Self::from_bits(Self::MAX_BITS).lemma_widening_exact_f64();
    }

    /// The binary64 pattern of what narrowing rounds to: the sign of the
    /// source, in front of its rounded size.
    pub proof fn lemma_widening_of_rounded_f64(src: u64)
        requires
            binary64::is_finite(src),
            !Self::in_dead_zone_f64(src),
            Self::in_range_f64(src),
        ensures
            Self::round_f64_bits(src).to_f64_bits() == round_pattern(src),
            Self::round_f64_bits(src).is_negative() == binary64::is_negative(src),
            Self::round_f64_bits(src) != Self::from_bits(Self::ZERO_BITS),
    {
        Self::lemma_zones_by_ordinal_f64(src);
        Self::lemma_from_bits_view(Self::ZERO_BITS);
        let moved = (src + 0x0800_0000_0000) as u64;
        let negative = binary64::is_negative(moved);
        let biased = (binary64::exponent_field(moved) - 1023 + 64) as nat;
        let mantissa = binary64::fraction_field(moved) / 0x1000_0000_0000;
        Self::lemma_fields_of_pack(negative, biased, mantissa);
        let rounded = Self::round_f64_bits(src);
        assert(rounded@ != 0) by {
            rounded.lemma_word_from_fields();
        }
    }

    /// Inside the range and outside the dead zone, narrowing from binary64
    /// rounds to nearest: no number of the format is nearer to the source
    /// than the result is. Where another number is as near as the result,
    /// the result is the one farther from zero. The result is off by no more
    /// than a 512th of the source.
    pub proof fn lemma_narrowing_is_nearest_f64(src: u64, other: Self)
        requires
            binary64::is_finite(src),
            !Self::in_dead_zone_f64(src),
            Self::in_range_f64(src),
        ensures
            ({
                let rounded = Self::round_f64_bits(src);
                let near = abs(rounded.units() * pow2(1002) - binary64::units(src));
                let far = abs(other.units() * pow2(1002) - binary64::units(src));
                &&& near <= far
                &&& near == far ==> abs(other.units()) <= abs(rounded.units())
                &&& 512 * near <= abs(binary64::units(src))
            }),
    {
        let rounded = Self::round_f64_bits(src);
        let wide = other.to_f64_bits();
        assert(0x0010_0000_0000_0000 <= binary64::abs_bits(src) < 0x7ff0_0000_0000_0000) by {
            Self::lemma_zones_by_ordinal_f64(src);
        }
        assert(binary64::abs_bits(wide) % 0x1000_0000_0000 == 0) by {
            other.lemma_word_from_fields();
            other.lemma_view_from_bits();
            Self::lemma_from_bits_view(Self::ZERO_BITS);
        }
        Self::lemma_widening_of_rounded_f64(src);
        lemma_round_pattern_is_nearest(src, wide);
        rounded.lemma_widening_exact_f64();
        other.lemma_widening_exact_f64();
        let scale = pow2(1002);
        lemma_pow2_pos(1002);
        let a = other.units();
        let b = rounded.units();
        assert(abs(a * scale) == abs(a) * scale && abs(b * scale) == abs(b) * scale)
            by (nonlinear_arith)
            requires
                scale > 0,
        ;
        assert(abs(a) * scale <= abs(b) * scale ==> abs(a) <= abs(b)) by (nonlinear_arith)
            requires
                scale > 0,
        ;
    }
}

} // verus!
