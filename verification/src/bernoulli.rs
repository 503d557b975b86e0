//! The Bernoulli distribution.

use vstd::prelude::*;
use crate::rng::{Rng, Stateful};

verus! {

/// The threshold that stands for a probability of one: no draw is compared with it.
pub const ALWAYS_TRUE: u64 = u64::MAX;

/// The bits of the IEEE 754 double that is one.
pub const ONE_BITS: u64 = 0x3ff0_0000_0000_0000;

/// The sign bit of the IEEE 754 double with bits `bits`.
pub open spec fn sign_of(bits: u64) -> u64 {
    bits >> 63
}

/// The biased exponent of the IEEE 754 double with bits `bits`.
pub open spec fn exponent_of(bits: u64) -> u64 {
    (bits >> 52) & 0x7ff
}

/// The fraction field of the IEEE 754 double with bits `bits`.
pub open spec fn fraction_of(bits: u64) -> u64 {
    bits & 0xf_ffff_ffff_ffff
}

/// Whether `bits` are those of a double that is not a number.
pub open spec fn is_nan(bits: u64) -> bool {
    exponent_of(bits) == 0x7ff && fraction_of(bits) != 0
}

/// Whether `bits` are those of a double that is a probability: a number from zero to
/// one. Either zero counts. What is not a number counts too: it compares as neither
/// below zero nor above one.
pub open spec fn is_probability(bits: u64) -> bool {
    ||| is_nan(bits)
    ||| bits == ONE_BITS
    ||| exponent_of(bits) < 1023 && (sign_of(bits) == 0 || (exponent_of(bits) == 0 && fraction_of(
        bits,
    ) == 0))
}

/// The threshold for the probability whose double has bits `bits`: the probability
/// times 2^64, rounded down; for one, the threshold that is always met; for what is not
/// a number, zero.
///
/// A double below one with biased exponent `e` and fraction `f` is `(2^52 + f) *
/// 2^(e - 1075)`, or `f * 2^-1074` where `e` is zero; times 2^64 that is the
/// significand moved by `e - 1011` bits.
pub open spec fn threshold_of(bits: u64) -> u64 {
    let e = exponent_of(bits);
    let significand = 0x10_0000_0000_0000 | fraction_of(bits);
    if bits == ONE_BITS {
        ALWAYS_TRUE
    } else if is_nan(bits) || e == 0 || e < 948 {
        0
    } else if e < 1011 {
        significand >> ((1011 - e) as u64)
    } else {
        significand << ((e - 1011) as u64)
    }
}

/// Two to the power 52: the least significand of a double with 53 significant bits.
pub const LEAST_SIGNIFICAND: u128 = 0x10_0000_0000_0000;

/// Two to the power 64: what a probability is scaled by to give a threshold.
pub const SCALE: u128 = 0x1_0000_0000_0000_0000;

/// The least power of two, from `scale` on, by which `numerator / denominator` has to
/// be multiplied to be no less than 2^52.
pub open spec fn ratio_scale(numerator: int, denominator: int, scale: int) -> int
    decreases 0x1000_0000_0000_0000_0000_0000int - scale,
{
    if 0 < scale <= 0x800_0000_0000_0000_0000_0000int && numerator * scale < denominator
        * LEAST_SIGNIFICAND {
        ratio_scale(numerator, denominator, 2 * scale)
    } else {
        scale
    }
}

/// The integer nearest to `numerator / denominator`; of two that are equally near,
/// the even one.
pub open spec fn round_half_even(numerator: int, denominator: int) -> int {
    let quotient = numerator / denominator;
    let rest = numerator % denominator;
    if 2 * rest > denominator || (2 * rest == denominator && quotient % 2 == 1) {
        quotient + 1
    } else {
        quotient
    }
}

/// The threshold for a probability of `numerator` in `denominator`: the double nearest
/// to the ratio, times 2^64, rounded down; the threshold that is always met where the
/// two are equal.
///
/// The double nearest to a ratio below one is `m / s`, where `s` is the power of two
/// that brings the ratio to 53 significant bits before the point and `m` is the ratio
/// times `s`, rounded to the nearest integer, to the even one in a tie.
pub open spec fn ratio_threshold(numerator: u32, denominator: u32) -> u64 {
    if numerator == denominator {
        ALWAYS_TRUE
    } else if numerator == 0 {
        0
    } else {
        let scale = ratio_scale(numerator as int, denominator as int, 2 * LEAST_SIGNIFICAND);
        ((round_half_even(numerator * scale, denominator as int) * SCALE) / scale) as u64
    }
}

/// The Bernoulli distribution.
///
/// This is a special case of the Binomial distribution where `n = 1`. It uses 64 bits
/// from the generator, so only probabilities that are multiples of 2^-64 can be
/// represented.
#[derive(Clone, Copy, Debug)]
pub struct Bernoulli {
    /// Probability of success, relative to the maximal integer.
    p_int: u64,
}

impl Bernoulli {
    /// The threshold below which a draw counts as success; [`ALWAYS_TRUE`] for a
    /// distribution that always succeeds.
    pub closed spec fn threshold(&self) -> u64 {
        self.p_int
    }

    /// Construct a new `Bernoulli` with the given probability of success, which is
    /// given by the bits of an IEEE 754 double from zero to one.
    ///
    /// For a probability of one, the resulting distribution will always generate
    /// true. For zero, it will always generate false.
    pub fn new(p_bits: u64) -> (distribution: Bernoulli)
        requires
            is_probability(p_bits),
        ensures
            distribution.threshold() == threshold_of(p_bits),
    {
        if p_bits == ONE_BITS {
            return Bernoulli { p_int: ALWAYS_TRUE };
        }
        let e = (p_bits >> 52) & 0x7ff;
        let fraction = p_bits & 0xf_ffff_ffff_ffff;
        assert(e <= 0x7ff) by (bit_vector)
            requires
                e == (p_bits >> 52) & 0x7ff,
        ;
        if (e == 0x7ff && fraction != 0) || e == 0 || e < 948 {
            return Bernoulli { p_int: 0 };
        }
        let significand = 0x10_0000_0000_0000 | fraction;
        let p_int = if e < 1011 {
            significand >> (1011 - e)
        } else {
            assert(e < 1023);
            assert(significand < 0x20_0000_0000_0000) by (bit_vector)
                requires
                    fraction == p_bits & 0xf_ffff_ffff_ffff,
                    significand == 0x10_0000_0000_0000 | fraction,
            ;
            significand << (e - 1011)
        };
        Bernoulli { p_int }
    }

    /// Construct a new `Bernoulli` with the probability of success of
    /// `numerator`-in-`denominator`. I.e. `from_ratio(2, 3)` will return a `Bernoulli`
    /// with a 2-in-3 chance, or about 67%, of returning `true`.
    ///
    /// If `numerator == denominator` then the returned `Bernoulli` will always return
    /// `true`. If `numerator == 0` it will always return `false`.
    pub fn from_ratio(numerator: u32, denominator: u32) -> (distribution: Bernoulli)
        requires
            numerator <= denominator,
        ensures
            distribution.threshold() == ratio_threshold(numerator, denominator),
    {
        if numerator == denominator {
            return Bernoulli { p_int: ALWAYS_TRUE };
        }
        if numerator == 0 {
            return Bernoulli { p_int: 0 };
        }
        let n = numerator as u128;
        let d = denominator as u128;
        let mut scale: u128 = 2 * LEAST_SIGNIFICAND;
        assert(n * scale < 0x1_0000_0000 * 0x1000_0000_0000_0000_0000_0000 && d
            * LEAST_SIGNIFICAND < 0x1_0000_0000 * 0x10_0000_0000_0000) by (nonlinear_arith)
            requires
                n < d < 0x1_0000_0000,
                scale == 0x20_0000_0000_0000,
                LEAST_SIGNIFICAND == 0x10_0000_0000_0000,
        ;
        while n * scale < d * LEAST_SIGNIFICAND
            invariant
                0 < n < d < 0x1_0000_0000,
                2 * LEAST_SIGNIFICAND <= scale <= 0x1000_0000_0000_0000_0000_0000,
                scale == 2 * LEAST_SIGNIFICAND || n * (scale / 2) < d * LEAST_SIGNIFICAND,
                scale % 2 == 0,
                n * scale < 0x1_0000_0000 * 0x1000_0000_0000_0000_0000_0000,
                d * LEAST_SIGNIFICAND < 0x1_0000_0000 * 0x10_0000_0000_0000,
                ratio_scale(n as int, d as int, 2 * LEAST_SIGNIFICAND) == ratio_scale(
                    n as int,
                    d as int,
                    scale as int,
                ),
            decreases 0x1000_0000_0000_0000_0000_0000 - scale,
        {
            assert(scale < 0x1000_0000_0000_0000_0000_0000) by (nonlinear_arith)
                requires
                    n * scale < d * LEAST_SIGNIFICAND,
                    n >= 1,
                    d < 0x1_0000_0000,
                    LEAST_SIGNIFICAND == 0x10_0000_0000_0000,
            ;
            assert(scale <= 0x800_0000_0000_0000_0000_0000) by (nonlinear_arith)
                requires
                    n * scale < d * LEAST_SIGNIFICAND,
                    n >= 1,
                    d < 0x1_0000_0000,
                    LEAST_SIGNIFICAND == 0x10_0000_0000_0000,
            ;
            scale = scale * 2;
            assert(n * scale < 0x1_0000_0000 * 0x1000_0000_0000_0000_0000_0000)
                by (nonlinear_arith)
                requires
                    n < 0x1_0000_0000,
                    0 < scale <= 0x1000_0000_0000_0000_0000_0000,
            ;
        }
        let product = n * scale;
        let quotient = product / d;
        let rest = product % d;
        let rounded = if 2 * rest > d || (2 * rest == d && quotient % 2 == 1) {
            quotient + 1
        } else {
            quotient
        };
        proof {
            let least = LEAST_SIGNIFICAND as int;
            let two64 = SCALE as int;
            let (ni, di, si) = (n as int, d as int, scale as int);
            let (qi, ri) = (quotient as int, rounded as int);
            // The quotient has at most 53 bits, and the rounded one stays below the scale.
            assert(ni * si < di * (2 * least) && (si == 2 * least ==> ni * si <= di * (2 * least)
                - 2 * di)) by (nonlinear_arith)
                requires
                    si == 2 * least || ni * (si / 2) < di * least,
                    si % 2 == 0,
                    0 < ni < di < 0x1_0000_0000,
                    least == 0x10_0000_0000_0000,
            ;
            assert(qi < 2 * least && (si == 2 * least ==> qi <= 2 * least - 2))
                by (nonlinear_arith)
                requires
                    qi == (ni * si) / di,
                    di > 0,
                    ni * si < di * (2 * least),
                    si == 2 * least ==> ni * si <= di * (2 * least) - 2 * di,
            ;
            assert(ri < si);
            assert(ri * two64 < si * two64) by (nonlinear_arith)
                requires
                    ri < si,
                    two64 > 0,
            ;
            assert((ri * two64) / si < two64) by (nonlinear_arith)
                requires
                    ri * two64 < si * two64,
                    si > 0,
            ;
            assert(0 <= ri * two64 <= 0x20_0000_0000_0000 * 0x1_0000_0000_0000_0000)
                by (nonlinear_arith)
                requires
                    0 <= ri <= 0x20_0000_0000_0000,
                    two64 == 0x1_0000_0000_0000_0000,
            ;
            assert(ri == round_half_even(ni * si, di));
            assert(si == ratio_scale(ni, di, 2 * least));
        }
        let p_int = ((rounded * SCALE) / scale) as u64;
        Bernoulli { p_int }
    }

    /// Whether a draw of `draw` counts as success.
    pub open spec fn succeeds(&self, draw: u64) -> bool {
        self.threshold() == ALWAYS_TRUE || draw < self.threshold()
    }

    /// Draws a success or a failure.
    ///
    /// One 64-bit draw is taken and compared with the threshold, but for a
    /// distribution that always succeeds, which draws nothing.
    pub fn sample<R: Rng>(&self, rng: &mut R) -> (success: bool)
        ensures
            self.threshold() == ALWAYS_TRUE ==> success && (*final(rng)).state() == (*old(rng)).state(),
            self.threshold() != ALWAYS_TRUE ==> success == (R::spec_next_u64((*old(rng)).state()).0
                < self.threshold()) && (*final(rng)).state() == R::spec_next_u64((*old(rng)).state()).1,
            self.threshold() == 0 ==> !success,
    {
        if self.p_int == ALWAYS_TRUE {
            return true;
        }
        let v: u64 = rng.next_u64();
        v < self.p_int
    }
}

} // verus!
