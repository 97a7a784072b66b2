//! Brightness as the bit pattern of an IEEE 754 single-precision number.
//!
//! The arithmetic on the pattern is integer arithmetic. It gives the results
//! that single-precision arithmetic gives.

use vstd::prelude::*;

use vstd::arithmetic::power2::{lemma_pow2_adds, lemma_pow2_pos, lemma_pow2_strictly_increases, pow2};
use vstd::bits::lemma_u64_shl_is_mul;

verus! {

/// The bit pattern of a single-precision number.
#[derive(Clone, Copy, Debug)]
pub struct Brightness {
    pub bits: u32,
}

/// Whether a pattern is that of no number.
pub open spec fn is_nan(bits: u32) -> bool {
    bits % 0x8000_0000 > 0x7F80_0000
}

/// Whether a pattern is that of a zero of either sign.
pub open spec fn is_zero(bits: u32) -> bool {
    bits % 0x8000_0000 == 0
}

/// Whether two patterns compare equal as numbers.
pub open spec fn same_number(left: u32, right: u32) -> bool {
    !is_nan(left) && (left == right || (is_zero(left) && is_zero(right)))
}

/// Whether a pattern is that of a number from 0.0 to 1.0. The patterns of the
/// numbers without a sign ascend with the numbers, and 1.0 has the pattern
/// `0x3F80_0000`; the other zero counts too.
pub open spec fn in_unit_range(bits: u32) -> bool {
    bits <= 0x3F80_0000 || bits == 0x8000_0000
}

/// The quotient rounded to the nearest integer, and to an even one in a tie.
pub open spec fn nearest_even(number: int, unit: int) -> int {
    let quotient = number / unit;
    let rest = number % unit;
    if 2 * rest < unit || (2 * rest == unit && quotient % 2 == 0) {
        quotient
    } else {
        quotient + 1
    }
}

/// 255 times a 24-bit significand, rounded to 24 significant bits as a
/// single-precision product is.
pub open spec fn scaled_significand(significand: int) -> int {
    let product = 255 * significand;
    let unit: int = if product < 0x8000_0000 {
        128
    } else {
        256
    };
    nearest_even(product, unit) * unit
}

/// 255 times the number clamped to 0.0 through 1.0, as a single-precision
/// product, rounded to the nearest integer with ties away from zero; zero
/// where the pattern is that of no number.
///
/// A number from 2^-10 up to 1.0 is its significand over a power of two. A
/// smaller one gives less than a half.
pub open spec fn level_of(bits: u32) -> int {
    if bits >= 0x8000_0000 || is_nan(bits) {
        0
    } else if bits >= 0x3F80_0000 {
        255
    } else if bits < 0x3A80_0000 {
        0
    } else {
        let exponent = bits / 0x80_0000;
        let significand = 0x80_0000 + bits % 0x80_0000;
        let scale = pow2((150 - exponent) as nat);
        (2 * scaled_significand(significand) + scale) / (2 * scale as int)
    }
}

impl PartialEq for Brightness {
    fn eq(&self, other: &Self) -> (same: bool) {
        let magnitude: u32 = self.bits % 0x8000_0000;
        magnitude <= 0x7F80_0000 && (self.bits == other.bits || (magnitude == 0 && other.bits
            % 0x8000_0000 == 0))
    }
}

impl vstd::std_specs::cmp::PartialEqSpecImpl for Brightness {
    open spec fn obeys_eq_spec() -> bool {
        true
    }

    open spec fn eq_spec(&self, other: &Self) -> bool {
        same_number(self.bits, other.bits)
    }
}

proof fn lemma_scaled_bound(significand: int)
    requires
        0x80_0000 <= significand < 0x100_0000,
    ensures
        0 <= scaled_significand(significand) <= 255 * 0x100_0000,
{
    let product = 255 * significand;
    assert(product <= 255 * 0x100_0000 - 255);
    if product < 0x8000_0000 {
        assert(product == 128 * (product / 128) + product % 128);
    } else {
        assert(product == 256 * (product / 256) + product % 256);
    }
}

proof fn lemma_level_bound(scaled: int, scale: int)
    requires
        0 <= scaled <= 255 * scale,
        scale > 0,
    ensures
        0 <= (2 * scaled + scale) / (2 * scale) <= 255,
{
    assert(0 <= (2 * scaled + scale) / (2 * scale) <= 255) by (nonlinear_arith)
        requires
            0 <= scaled <= 255 * scale,
            scale > 0,
    ;
}

impl Brightness {
    /// Whether the brightness is from 0.0 to 1.0.
    pub fn in_range(self) -> (inside: bool)
        ensures
            inside == in_unit_range(self.bits),
    {
        self.bits <= 0x3F80_0000 || self.bits == 0x8000_0000
    }

    /// The brightness on a scale from 0 to 255.
    pub fn level(self) -> (level: u8)
        ensures
            level == level_of(self.bits),
    {
        let bits: u32 = self.bits;
        if bits >= 0x8000_0000 || bits > 0x7F80_0000 {
            return 0;
        }
        if bits >= 0x3F80_0000 {
            return 255;
        }
        if bits < 0x3A80_0000 {
            return 0;
        }
        let exponent: u32 = bits / 0x80_0000;
        let significand: u64 = (0x80_0000 + bits % 0x80_0000) as u64;
        let product: u64 = 255 * significand;
        let unit: u64 = if product < 0x8000_0000 {
            128
        } else {
            256
        };
        let quotient: u64 = product / unit;
        let rest: u64 = product % unit;
        let rounded: u64 = if 2 * rest < unit || (2 * rest == unit && quotient % 2 == 0) {
            quotient
        } else {
            quotient + 1
        };
        proof {
            lemma_scaled_bound(significand as int);
        }
        let scaled: u64 = if unit == 128 {
            rounded * 128
        } else {
            rounded * 256
        };
        assert(scaled == scaled_significand(significand as int));
        let shift: u32 = 150 - exponent;
        assert(24 <= shift <= 33);
        let scale: u64 = 1u64 << shift;
        proof {
            vstd::arithmetic::power2::lemma2_to64();
            lemma_pow2_pos(shift as nat);
            if shift < 33 {
                lemma_pow2_strictly_increases(shift as nat, 33);
            }
            if 24 < shift {
                lemma_pow2_strictly_increases(24, shift as nat);
            }
            assert(pow2(33) == 0x2_0000_0000) by {
                lemma_pow2_adds(32, 1);
            }
            lemma_u64_shl_is_mul(1, shift as u64);
            assert(scale == pow2(shift as nat));
            assert(scaled <= 255 * scale);
            lemma_level_bound(scaled as int, scale as int);
        }
        ((2 * scaled + scale) / (2 * scale)) as u8
    }
}

} // verus!
