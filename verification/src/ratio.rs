//! The character ratio: a binary fraction, exact for every finite
//! single-precision number.

use vstd::arithmetic::power2::{
    lemma2_to64, lemma_pow2_adds, lemma_pow2_pos, lemma_pow2_strictly_increases, lemma_pow2_unfold,
    pow2,
};
use vstd::prelude::*;

verus! {

/// The correction for character cells that are taller than wide: the number
/// `significand * 2^exponent`.
#[derive(Clone, Copy, Debug, PartialEq, Eq, Structural)]
pub struct CharRatio {
    pub significand: u32,
    pub exponent: i32,
}

/// Whether the sign bit of a single-precision number is set.
pub open spec fn f32_negative(bits: u32) -> bool {
    bits >= 0x8000_0000
}

/// The exponent field of a single-precision number.
pub open spec fn f32_exponent(bits: u32) -> int {
    ((bits / 0x80_0000) % 256) as int
}

/// The fraction field of a single-precision number.
pub open spec fn f32_fraction(bits: u32) -> int {
    (bits % 0x80_0000) as int
}

/// The whole number `m` for which a finite single-precision number is, up to
/// its sign, `m * 2^(p - 150)`, with `p` its power: the fraction field, with
/// the hidden bit in front where the number is normal.
pub open spec fn f32_significand(bits: u32) -> int {
    if f32_exponent(bits) == 0 {
        f32_fraction(bits)
    } else {
        f32_fraction(bits) + 0x80_0000
    }
}

/// The power `p` for which a finite single-precision number is, up to its
/// sign, `m * 2^(p - 150)`, with `m` its significand.
pub open spec fn f32_power(bits: u32) -> int {
    if f32_exponent(bits) == 0 {
        1
    } else {
        f32_exponent(bits)
    }
}

/// The ratio that the bits of a single-precision number stand for: none for
/// a number with the sign bit set, an infinity or a NaN, else the
/// significand with the power of two of the number.
pub open spec fn f32_ratio(bits: u32) -> Option<CharRatio> {
    if f32_negative(bits) || f32_exponent(bits) == 255 {
        None
    } else {
        Some(
            CharRatio {
                significand: f32_significand(bits) as u32,
                exponent: (f32_power(bits) - 150) as i32,
            },
        )
    }
}

impl CharRatio {
    /// The numerator of the ratio as a fraction of whole numbers.
    pub open spec fn numer(self) -> int {
        if self.exponent >= 0 {
            self.significand * pow2(self.exponent as nat)
        } else {
            self.significand as int
        }
    }

    /// The denominator of the ratio as a fraction of whole numbers.
    pub open spec fn denom(self) -> int {
        if self.exponent >= 0 {
            1
        } else {
            pow2((-self.exponent) as nat) as int
        }
    }

    /// A ratio is usable when it is a positive number.
    pub open spec fn is_positive(self) -> bool {
        self.significand > 0
    }

    /// One half: a cell twice as tall as wide.
    pub open spec fn spec_half() -> CharRatio {
        CharRatio { significand: 1, exponent: -1i32 }
    }

    /// The ratio used when none is given.
    #[verifier::when_used_as_spec(spec_half)]
    pub fn half() -> (ratio: CharRatio)
        ensures
            ratio == Self::spec_half(),
    {
        CharRatio { significand: 1, exponent: -1 }
    }

    /// The ratio that is exactly the single-precision number with the given
    /// bits; `None` for a number with the sign bit set, an infinity and a
    /// NaN.
    pub fn from_f32_bits(bits: u32) -> (ratio: Option<CharRatio>)
        ensures
            ratio == f32_ratio(bits),
    {
        if bits >= 0x8000_0000 {
            return None;
        }
        let exponent: u32 = bits / 0x80_0000;
        let fraction: u32 = bits % 0x80_0000;
        if exponent == 255 {
            return None;
        }
        if exponent == 0 {
            Some(CharRatio { significand: fraction, exponent: -149 })
        } else {
            Some(CharRatio { significand: fraction + 0x80_0000, exponent: exponent as i32 - 150 })
        }
    }
}

/// The fraction of a ratio has a numerator that is not negative and a
/// positive denominator, and a positive ratio has a positive numerator.
pub proof fn lemma_fraction_signs(ratio: CharRatio)
    ensures
        0 <= ratio.numer(),
        0 < ratio.denom(),
        ratio.is_positive() ==> 0 < ratio.numer(),
{
    if ratio.exponent >= 0 {
        lemma_pow2_pos(ratio.exponent as nat);
        assert(0 <= ratio.significand * pow2(ratio.exponent as nat)) by (nonlinear_arith)
            requires
                0 <= ratio.significand,
                0 < pow2(ratio.exponent as nat),
        ;
        if ratio.significand > 0 {
            assert(0 < ratio.significand * pow2(ratio.exponent as nat)) by (nonlinear_arith)
                requires
                    0 < ratio.significand,
                    0 < pow2(ratio.exponent as nat),
            ;
        }
    } else {
        lemma_pow2_pos((-ratio.exponent) as nat);
    }
}

/// One half is the fraction 1/2.
pub proof fn lemma_half_is_one_half()
    ensures
        CharRatio::spec_half().numer() == 1,
        CharRatio::spec_half().denom() == 2,
{
    lemma2_to64();
}

/// Computes a power of two.
pub(crate) fn power_of_two(exponent: u32) -> (power: u128)
    requires
        exponent <= 127,
    ensures
        power == pow2(exponent as nat),
{
    let mut power: u128 = 1;
    let mut doubled: u32 = 0;
    proof {
        lemma2_to64();
    }
    while doubled < exponent
        invariant
            doubled <= exponent <= 127,
            power == pow2(doubled as nat),
        decreases exponent - doubled,
    {
        proof {
            lemma_pow2_unfold((doubled + 1) as nat);
            lemma_pow2_below(doubled as nat, 126);
        }
        power = power * 2;
        doubled = doubled + 1;
    }
    power
}

/// The powers of two are positive and grow with their exponents; and the
/// values of those that bound the planner's arithmetic.
pub proof fn lemma_pow2_below(low: nat, high: nat)
    requires
        low <= high,
    ensures
        0 < pow2(low) <= pow2(high),
        pow2(32) == 0x1_0000_0000,
        pow2(64) == 0x1_0000_0000_0000_0000,
        pow2(95) == 0x8000_0000_0000_0000_0000_0000,
        pow2(96) == 0x1_0000_0000_0000_0000_0000_0000,
        pow2(126) == 0x4000_0000_0000_0000_0000_0000_0000_0000,
        pow2(127) == 0x8000_0000_0000_0000_0000_0000_0000_0000,
{
    if low < high {
        lemma_pow2_strictly_increases(low, high);
    }
    lemma_pow2_pos(low);
    lemma2_to64();
    vstd::arithmetic::power2::lemma2_to64_rest();
    lemma_pow2_adds(64, 31);
    lemma_pow2_adds(64, 32);
    lemma_pow2_adds(64, 62);
    lemma_pow2_adds(64, 63);
}

} // verus!
