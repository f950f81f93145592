//! What the binary formats have in common: a pattern of an exponent field and
//! a fraction field stands for a size, and a larger pattern for a larger size.

use vstd::prelude::*;
use vstd::math::abs;
use vstd::arithmetic::power2::{
    pow2,
    lemma_pow2_pos,
    lemma_pow2_strictly_increases,
    lemma_pow2_unfold,
};

verus! {

/// The size that an exponent field and a fraction field stand for, counted in
/// units of the smallest size above zero. `hidden` is the weight of the
/// implicit leading one, two to the width of the fraction field. With an
/// exponent field of zero there is no leading one (a subnormal number); every
/// step of the exponent field above one doubles the size.
pub open spec fn magnitude(hidden: nat, exponent: nat, fraction: nat) -> nat {
    if exponent == 0 {
        fraction
    } else {
        (hidden + fraction) * pow2((exponent - 1) as nat)
    }
}

/// Every size with exponent field `exponent` lies below `hidden * 2^exponent`.
pub proof fn lemma_magnitude_upper(hidden: nat, exponent: nat, fraction: nat)
    requires
        fraction < hidden,
    ensures
        magnitude(hidden, exponent, fraction) < hidden * pow2(exponent),
{
    if exponent == 0 {
        assert(pow2(0) == 1) by {
            lemma_pow2_pos(0);
            lemma_pow2_unfold(1);
            vstd::arithmetic::power2::lemma2_to64();
        }
        assert(hidden * 1 == hidden);
    } else {
        let p = pow2((exponent - 1) as nat);
        lemma_pow2_pos((exponent - 1) as nat);
        lemma_pow2_unfold(exponent);
        assert((hidden + fraction) * p < hidden * (2 * p)) by (nonlinear_arith)
            requires
                fraction < hidden,
                p > 0,
        ;
    }
}

/// Every size with an exponent field `exponent` above zero is at least
/// `hidden * 2^(exponent - 1)`.
pub proof fn lemma_magnitude_lower(hidden: nat, exponent: nat, fraction: nat)
    requires
        exponent > 0,
    ensures
        hidden * pow2((exponent - 1) as nat) <= magnitude(hidden, exponent, fraction),
{
    let p = pow2((exponent - 1) as nat);
    assert(hidden * p <= (hidden + fraction) * p) by (nonlinear_arith);
}

/// The size grows with the pattern: a larger exponent field, or the same
/// exponent field with a larger fraction field, stands for a larger size.
pub proof fn lemma_magnitude_increases(
    hidden: nat,
    exponent1: nat,
    fraction1: nat,
    exponent2: nat,
    fraction2: nat,
)
    requires
        fraction1 < hidden,
        fraction2 < hidden,
        exponent1 < exponent2 || (exponent1 == exponent2 && fraction1 < fraction2),
    ensures
        magnitude(hidden, exponent1, fraction1) < magnitude(hidden, exponent2, fraction2),
{
    if exponent1 == exponent2 {
        if exponent1 > 0 {
            let p = pow2((exponent1 - 1) as nat);
            lemma_pow2_pos((exponent1 - 1) as nat);
            assert((hidden + fraction1) * p < (hidden + fraction2) * p) by (nonlinear_arith)
                requires
                    fraction1 < fraction2,
                    p > 0,
            ;
        }
    } else {
        lemma_magnitude_upper(hidden, exponent1, fraction1);
        lemma_magnitude_lower(hidden, exponent2, fraction2);
        let below = pow2(exponent1);
        let above = pow2((exponent2 - 1) as nat);
        if exponent1 < exponent2 - 1 {
            lemma_pow2_strictly_increases(exponent1, (exponent2 - 1) as nat);
        }
        assert(hidden * below <= hidden * above) by (nonlinear_arith)
            requires
                below <= above,
        ;
    }
}

/// Within one exponent the size grows evenly with the fraction field: `step`
/// more in the fraction field is `step * 2^(exponent - 1)` more in size. This
/// holds up to and including the first pattern of the next exponent, which is
/// where a fraction field of `hidden` would stand.
pub proof fn lemma_magnitude_step(hidden: nat, exponent: nat, fraction: nat, step: nat)
    requires
        exponent > 0,
        fraction + step <= hidden,
    ensures
        magnitude(hidden, exponent, fraction) + step * pow2((exponent - 1) as nat) == (if fraction
            + step < hidden {
            magnitude(hidden, exponent, fraction + step)
        } else {
            magnitude(hidden, exponent + 1, 0)
        }),
{
    let p = pow2((exponent - 1) as nat);
    assert((hidden + fraction) * p + step * p == (hidden + (fraction + step)) * p)
        by (nonlinear_arith);
    if fraction + step == hidden {
        lemma_pow2_unfold(exponent);
        assert((hidden + hidden) * p == hidden * (2 * p)) by (nonlinear_arith);
    }
}

/// A size with a sign in front of it.
pub open spec fn signed(negative: bool, size: int) -> int {
    if negative {
        -size
    } else {
        size
    }
}

/// From sizes to signed values. Let `rounded` be as near to `target` as any
/// size of a grid that holds `other`, and within a 512th of it. Then with the
/// sign of the target in front of it, it is as near to the signed target as
/// `other` is with either sign; and where the two are equally near, `other`
/// is not the larger in size.
pub proof fn lemma_nearest_with_signs(
    negative: bool,
    other_negative: bool,
    target: int,
    rounded: int,
    other: int,
)
    requires
        target > 0,
        rounded >= 0,
        other >= 0,
        abs(rounded - target) <= abs(other - target),
        abs(rounded - target) == abs(other - target) ==> other <= rounded,
        512 * abs(rounded - target) <= target,
    ensures
        ({
            let near = abs(signed(negative, rounded) - signed(negative, target));
            let far = abs(signed(other_negative, other) - signed(negative, target));
            &&& near <= far
            &&& near == far ==> abs(signed(other_negative, other)) <= abs(
                signed(negative, rounded),
            )
            &&& 512 * near <= abs(signed(negative, target))
        }),
{
}

} // verus!
