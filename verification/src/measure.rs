//! Measured quantities carried through the library's records.
//!
//! A [`Measure`] is one IEEE-754 binary64 value held as its exact bit
//! pattern. The library never does arithmetic on a measure: it stores and
//! copies records that carry one, and it reads the comparisons its decisions
//! need ([`Measure::is_negative`], [`Measure::less_than`],
//! [`Measure::at_most`]) from the bits, exactly as the floating-point
//! comparisons define them.

use vstd::prelude::*;

verus! {

/// Mask of the binary64 exponent field.
pub const EXPONENT_MASK: u64 = 0x7ff0_0000_0000_0000u64;

/// Mask of the binary64 fraction field.
pub const FRACTION_MASK: u64 = 0x000f_ffff_ffff_ffffu64;

/// Mask of every bit but the sign.
pub const MAGNITUDE_MASK: u64 = 0x7fff_ffff_ffff_ffffu64;

/// Whether a bit pattern is a NaN: an all-ones exponent with a non-zero
/// fraction.
pub open spec fn bits_nan(bits: u64) -> bool {
    (bits & EXPONENT_MASK) == EXPONENT_MASK && (bits & FRACTION_MASK) != 0
}

/// Whether a bit pattern is a finite value: its exponent is not all ones.
pub open spec fn bits_finite(bits: u64) -> bool {
    (bits & EXPONENT_MASK) != EXPONENT_MASK
}

/// Whether a bit pattern is a zero of either sign.
pub open spec fn bits_zero(bits: u64) -> bool {
    (bits & MAGNITUDE_MASK) == 0
}

/// Whether a bit pattern has its sign bit set.
pub open spec fn bits_sign(bits: u64) -> bool {
    (bits >> 63u64) == 1
}

/// Whether the value of a bit pattern compares `< 0.0`: a set sign bit on a
/// value that is neither a NaN nor a zero.
pub open spec fn bits_lt_zero(bits: u64) -> bool {
    bits_sign(bits) && !bits_nan(bits) && !bits_zero(bits)
}

/// Whether the value of a bit pattern compares `<= 0.0`: a zero of either
/// sign, or a set sign bit on a value that is not a NaN.
pub open spec fn bits_le_zero(bits: u64) -> bool {
    bits_zero(bits) || (bits_sign(bits) && !bits_nan(bits))
}

/// Whether the value of a bit pattern compares `> 0.0`: a clear sign bit on
/// a value that is neither a NaN nor a zero.
pub open spec fn bits_gt_zero(bits: u64) -> bool {
    !bits_nan(bits) && !bits_zero(bits) && !bits_sign(bits)
}

/// Whether the value of a bit pattern compares `>= 0.0`: a zero of either
/// sign, or a clear sign bit on a value that is not a NaN.
pub open spec fn bits_ge_zero(bits: u64) -> bool {
    !bits_nan(bits) && (bits_zero(bits) || !bits_sign(bits))
}

/// Whether the value of one bit pattern compares `<` the value of another.
///
/// A NaN compares below nothing, the two zeros are equal, a negative value
/// lies below every non-negative one, non-negative values order as their bit
/// patterns and negative values in the reverse order of theirs.
pub open spec fn bits_lt(a: u64, b: u64) -> bool {
    &&& !bits_nan(a)
    &&& !bits_nan(b)
    &&& !(bits_zero(a) && bits_zero(b))
    &&& if bits_sign(a) {
        !bits_sign(b) || a > b
    } else {
        !bits_sign(b) && a < b
    }
}

/// Whether the value of one bit pattern compares `<=` the value of another:
/// it compares `<`, or the two are equal values (the same non-NaN pattern or
/// two zeros).
pub open spec fn bits_le(a: u64, b: u64) -> bool {
    bits_lt(a, b) || (!bits_nan(a) && !bits_nan(b) && (a == b || (bits_zero(a) && bits_zero(b))))
}

/// The bit pattern of positive infinity.
pub const POSITIVE_INFINITY_BITS: u64 = 0x7ff0_0000_0000_0000u64;

/// One binary64 quantity held as its exact bit pattern.
#[derive(Debug, Clone, Copy, PartialEq, Eq, Hash, Structural)]
pub struct Measure {
    /// The IEEE-754 binary64 bit pattern.
    pub bits: u64,
}

impl Measure {
    /// The measure with the given bit pattern.
    pub fn from_bits(bits: u64) -> (r: Measure)
        ensures
            r.bits == bits,
    {
        Measure { bits }
    }

    /// The bit pattern of this measure.
    pub fn to_bits(self) -> (r: u64)
        ensures
            r == self.bits,
    {
        self.bits
    }

    /// Positive zero.
    pub fn zero() -> (r: Measure)
        ensures
            r.bits == 0,
            !bits_lt_zero(r.bits),
            bits_le_zero(r.bits),
    {
        assert(!bits_lt_zero(0u64) && bits_le_zero(0u64)) by (bit_vector);
        Measure { bits: 0 }
    }

    /// Whether the value is a NaN.
    pub fn is_nan(self) -> (r: bool)
        ensures
            r == bits_nan(self.bits),
    {
        (self.bits & EXPONENT_MASK) == EXPONENT_MASK && (self.bits & FRACTION_MASK) != 0
    }

    /// Whether the value is finite: its exponent is not all ones.
    pub fn is_finite(self) -> (r: bool)
        ensures
            r == bits_finite(self.bits),
    {
        (self.bits & EXPONENT_MASK) != EXPONENT_MASK
    }

    /// Whether the value compares `< 0.0`.
    pub fn is_negative(self) -> (r: bool)
        ensures
            r == bits_lt_zero(self.bits),
    {
        (self.bits >> 63u64) == 1 && !self.is_nan() && (self.bits & MAGNITUDE_MASK) != 0
    }

    /// Whether the value compares `>= 0.0`.
    pub fn is_at_least_zero(self) -> (r: bool)
        ensures
            r == bits_ge_zero(self.bits),
    {
        !self.is_nan() && ((self.bits & MAGNITUDE_MASK) == 0 || (self.bits >> 63u64) != 1)
    }

    /// Whether the value compares `> 0.0`.
    pub fn is_positive(self) -> (r: bool)
        ensures
            r == bits_gt_zero(self.bits),
    {
        !self.is_nan() && (self.bits & MAGNITUDE_MASK) != 0 && (self.bits >> 63u64) != 1
    }

    /// Positive infinity.
    pub fn infinity() -> (r: Measure)
        ensures
            r.bits == POSITIVE_INFINITY_BITS,
    {
        Measure { bits: POSITIVE_INFINITY_BITS }
    }

    /// Whether the value compares `<` another's.
    pub fn less_than(self, other: Measure) -> (r: bool)
        ensures
            r == bits_lt(self.bits, other.bits),
    {
        if self.is_nan() || other.is_nan() {
            return false;
        }
        if (self.bits & MAGNITUDE_MASK) == 0 && (other.bits & MAGNITUDE_MASK) == 0 {
            return false;
        }
        if (self.bits >> 63u64) == 1 {
            (other.bits >> 63u64) != 1 || self.bits > other.bits
        } else {
            (other.bits >> 63u64) != 1 && self.bits < other.bits
        }
    }

    /// Whether the value compares `<=` another's.
    pub fn at_most(self, other: Measure) -> (r: bool)
        ensures
            r == bits_le(self.bits, other.bits),
    {
        self.less_than(other) || (!self.is_nan() && !other.is_nan() && (self.bits == other.bits || (
        (self.bits & MAGNITUDE_MASK) == 0 && (other.bits & MAGNITUDE_MASK) == 0)))
    }

    /// Whether the value compares `<= 0.0`.
    pub fn is_at_most_zero(self) -> (r: bool)
        ensures
            r == bits_le_zero(self.bits),
    {
        (self.bits & MAGNITUDE_MASK) == 0 || ((self.bits >> 63u64) == 1 && !self.is_nan())
    }
}

} // verus!
