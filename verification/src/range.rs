//! The numbers of the format as values: each word stands for a value of its
//! own, and the five named numbers are where they are said to be.

use vstd::prelude::*;
use crate::F16;
use crate::binary32;

verus! {

impl F16 {
    /// Two numbers have the same value exactly when they are the same
    /// number: no value has two words.
    pub proof fn lemma_value_determines_number(self, other: Self)
        ensures
            self.units() == other.units() <==> self == other,
    {
        if self.units() == other.units() {
            let a = self.to_f32_bits();
            let b = other.to_f32_bits();
            self.lemma_widening_exact_f32();
            other.lemma_widening_exact_f32();
            binary32::lemma_ordinal_orders(a, b);
            self.lemma_word_from_fields();
            other.lemma_word_from_fields();
            self.lemma_view_from_bits();
            other.lemma_view_from_bits();
            Self::lemma_from_bits_view(Self::ZERO_BITS);
            assert(a == b);
            self.lemma_round_trip_f32();
            other.lemma_round_trip_f32();
        }
    }

    /// Zero is the only number whose value is zero.
    pub proof fn lemma_zero_is_unique(self)
        ensures
            self.units() == 0 <==> self == Self::from_bits(Self::ZERO_BITS),
    {
        let zero = Self::from_bits(Self::ZERO_BITS);
        Self::lemma_from_bits_view(Self::ZERO_BITS);
        self.lemma_value_determines_number(zero);
    }

    /// No number lies above the largest or below the smallest, and no number
    /// but zero lies strictly between the largest number below zero and the
    /// smallest number above zero.
    pub proof fn lemma_extremes(self)
        ensures
            Self::from_bits(Self::MIN_BITS).units() <= self.units() <= Self::from_bits(
                Self::MAX_BITS,
            ).units(),
            self != Self::from_bits(Self::ZERO_BITS) ==> self.units() <= Self::from_bits(
                Self::MAX_NEGATIVE_BITS,
            ).units() || Self::from_bits(Self::MIN_POSITIVE_BITS).units() <= self.units(),
            Self::from_bits(Self::MAX_NEGATIVE_BITS).units() < 0 < Self::from_bits(
                Self::MIN_POSITIVE_BITS,
            ).units(),
    {
        let zero = Self::from_bits(Self::ZERO_BITS);
        let wide = self.to_f32_bits();
        self.lemma_round_trip_f32();
        self.lemma_widening_exact_f32();
        Self::lemma_success_f32(wide);
        Self::from_bits(Self::MIN_BITS).lemma_widening_keeps_order_f32(self);
        self.lemma_widening_keeps_order_f32(Self::from_bits(Self::MAX_BITS));
        Self::from_bits(Self::MAX_NEGATIVE_BITS).lemma_widening_keeps_order_f32(self);
        self.lemma_widening_keeps_order_f32(Self::from_bits(Self::MIN_POSITIVE_BITS));
        Self::from_bits(Self::MAX_NEGATIVE_BITS).lemma_widening_keeps_order_f32(zero);
        zero.lemma_widening_keeps_order_f32(Self::from_bits(Self::MIN_POSITIVE_BITS));
        Self::lemma_wide_zero_gives_zero_f32();
        Self::lemma_from_bits_view(Self::ZERO_BITS);
    }
}

} // verus!
