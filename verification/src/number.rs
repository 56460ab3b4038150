//! Measured quantities, as this library sees them.
//!
//! Angles, scores and similarities come from models as floating-point numbers.
//! Deciding about them takes comparisons, magnitudes and maxima, and all of
//! those are exact on the bit pattern. Producing new numbers (smoothing,
//! decaying, ramping) is left to an [`Arithmetic`] handed in by the caller.

use vstd::prelude::*;

verus! {

/// Sign bit of an IEEE 754 binary64 bit pattern.
pub const SIGN: u64 = 0x8000_0000_0000_0000;

/// Bit pattern of positive infinity: every larger magnitude is not a number.
pub const INFINITY: u64 = 0x7ff0_0000_0000_0000;

/// A quantity, held as the bit pattern of an IEEE 754 binary64 value.
#[derive(Debug, Clone, Copy, PartialEq, Eq, Default, Structural)]
pub struct Number {
    pub bits: u64,
}

/// Bit pattern of `1.0`.
pub const ONE: u64 = 0x3ff0_0000_0000_0000;

impl Number {
    /// `0.0`
    #[verifier::allow_in_spec]
    pub fn zero() -> Number
        returns
            (Number { bits: 0 }),
    {
        Number { bits: 0 }
    }

    /// `1.0`
    #[verifier::allow_in_spec]
    pub fn one() -> Number
        returns
            (Number { bits: ONE }),
    {
        Number { bits: ONE }
    }

    /// The bit pattern without its sign.
    pub open spec fn unsigned(self) -> u64 {
        if self.bits < SIGN {
            self.bits
        } else {
            (self.bits - SIGN) as u64
        }
    }

    /// Whether the pattern encodes no number at all.
    pub open spec fn is_nan(self) -> bool {
        self.unsigned() > INFINITY
    }

    /// Position on the number line: numbers compare as their ranks do, and the
    /// two zeros share rank 0.
    pub open spec fn rank(self) -> int {
        if self.bits < SIGN {
            self.bits as int
        } else {
            SIGN - self.bits
        }
    }

    /// `a < b`. False as soon as either side is not a number.
    pub open spec fn lt(a: Number, b: Number) -> bool {
        !a.is_nan() && !b.is_nan() && a.rank() < b.rank()
    }

    /// `a <= b`. False as soon as either side is not a number.
    pub open spec fn le(a: Number, b: Number) -> bool {
        !a.is_nan() && !b.is_nan() && a.rank() <= b.rank()
    }

    /// The distance from zero.
    pub open spec fn magnitude_spec(self) -> Number {
        Number { bits: self.unsigned() }
    }

    /// The larger of two numbers; the other one where one is not a number.
    pub open spec fn max_spec(a: Number, b: Number) -> Number {
        if a.is_nan() {
            b
        } else if b.is_nan() {
            a
        } else if a.rank() < b.rank() {
            b
        } else {
            a
        }
    }

    fn unsigned_bits(self) -> (r: u64)
        ensures
            r == self.unsigned(),
    {
        if self.bits < SIGN {
            self.bits
        } else {
            self.bits - SIGN
        }
    }

    /// Whether the two are both numbers, so that comparing them means something.
    fn comparable(self, other: Number) -> (r: bool)
        ensures
            r == (!self.is_nan() && !other.is_nan()),
    {
        self.unsigned_bits() <= INFINITY && other.unsigned_bits() <= INFINITY
    }

    /// Whether `self` lies before `other` on the number line.
    fn ranks_before(self, other: Number) -> (r: bool)
        ensures
            r == (self.rank() < other.rank()),
    {
        if self.bits < SIGN {
            other.bits < SIGN && self.bits < other.bits
        } else if other.bits < SIGN {
            self.bits > SIGN || other.bits > 0
        } else {
            self.bits > other.bits
        }
    }

    /// `self < other`
    pub fn below(self, other: Number) -> (r: bool)
        ensures
            r == Number::lt(self, other),
    {
        self.comparable(other) && self.ranks_before(other)
    }

    /// `self >= other`
    pub fn at_least(self, other: Number) -> (r: bool)
        ensures
            r == Number::le(other, self),
    {
        self.comparable(other) && !self.ranks_before(other)
    }

    /// Distance from zero.
    pub fn magnitude(self) -> (r: Number)
        ensures
            r == self.magnitude_spec(),
    {
        Number { bits: self.unsigned_bits() }
    }

    /// The larger of the two, or whichever is a number.
    pub fn max(self, other: Number) -> (r: Number)
        ensures
            r == Number::max_spec(self, other),
    {
        if self.unsigned_bits() > INFINITY {
            other
        } else if other.unsigned_bits() > INFINITY {
            self
        } else if self.ranks_before(other) {
            other
        } else {
            self
        }
    }
}

/// The arithmetic that fusion needs and does not do itself.
///
/// Nothing is required of an implementation: what the engine concludes from
/// the numbers holds whatever they are.
pub trait Arithmetic: Sized {
    /// `alpha * sample + (1 - alpha) * previous`
    fn blend(&self, alpha: Number, sample: Number, previous: Number) -> Number;

    /// `(value - enter) / enter`, clamped to `[0, 1]`
    fn ramp(&self, value: Number, enter: Number) -> Number;

    /// `score * 0.5 ^ (elapsed_ms / half_life_ms)`
    fn decay(&self, score: Number, elapsed_ms: u64, half_life_ms: u64) -> Number;

    /// `a + b`
    fn sum(&self, a: Number, b: Number) -> Number;

    /// `a - b`
    fn difference(&self, a: Number, b: Number) -> Number;

    /// An angle in radians, in degrees.
    fn degrees(&self, radians: Number) -> Number;

    /// The value in decimal, rounded to `places` digits after the point.
    fn shown(&self, value: Number, places: u32) -> String;
}

// -- laws -------------------------------------------------------------------

/// Numbers lie on one line. Of two that carry no sign the one with the larger
/// pattern is larger, of two that carry one it is smaller, and what carries a
/// sign lies below what does not, but for the two zeros, which are equal.
pub proof fn law_numbers_lie_on_a_line(a: Number, b: Number)
    requires
        a.bits <= INFINITY || SIGN <= a.bits <= SIGN + INFINITY,
        b.bits <= INFINITY || SIGN <= b.bits <= SIGN + INFINITY,
    ensures
        a.bits < SIGN && b.bits < SIGN ==> (Number::lt(a, b) <==> a.bits < b.bits),
        a.bits >= SIGN && b.bits >= SIGN ==> (Number::lt(a, b) <==> b.bits < a.bits),
        a.bits >= SIGN && b.bits < SIGN ==> (Number::lt(a, b) <==> !(a.bits == SIGN && b.bits == 0)),
        a.bits < SIGN && b.bits >= SIGN ==> !Number::lt(a, b),
        Number::le(a, b) <==> !Number::lt(b, a),
        Number::lt(a, b) ==> Number::le(a, b),
{
}

/// What is not a number is neither below, nor at, nor above anything.
pub proof fn law_no_number_compares_with_nothing(a: Number, b: Number)
    requires
        INFINITY < a.bits < SIGN || a.bits > SIGN + INFINITY,
    ensures
        !Number::lt(a, b) && !Number::lt(b, a),
        !Number::le(a, b) && !Number::le(b, a),
{
}

/// Comparing carries over: what is below something lies below all that this
/// lies below, or at.
pub proof fn law_comparing_carries_over(a: Number, b: Number, c: Number)
    ensures
        Number::lt(a, b) && Number::le(b, c) ==> Number::lt(a, c),
        Number::le(a, b) && Number::lt(b, c) ==> Number::lt(a, c),
        Number::le(a, b) && Number::le(b, c) ==> Number::le(a, c),
        !Number::lt(a, a),
{
}

/// A magnitude carries no sign, and is what it was taken of but for the sign.
pub proof fn law_a_magnitude_drops_the_sign(a: Number)
    ensures
        a.magnitude_spec().bits < SIGN,
        a.magnitude_spec() == a || a.magnitude_spec().bits + SIGN == a.bits,
        Number::lt(Number { bits: 0 }, a) ==> a.magnitude_spec() == a,
        Number::lt(a, Number { bits: 0 }) ==> Number::lt(Number { bits: 0 }, a.magnitude_spec()),
{
}

/// The larger of two numbers is one of them, and neither lies above it. What is
/// not a number yields to what is.
pub proof fn law_the_larger_is_not_exceeded(a: Number, b: Number)
    ensures
        Number::max_spec(a, b) == a || Number::max_spec(a, b) == b,
        !Number::lt(Number::max_spec(a, b), a),
        !Number::lt(Number::max_spec(a, b), b),
        Number::lt(a, b) ==> Number::max_spec(a, b) == b,
        Number::lt(b, a) ==> Number::max_spec(a, b) == a,
        Number::le(a, a) && !Number::le(b, b) ==> Number::max_spec(a, b) == a,
        Number::le(b, b) && !Number::le(a, a) ==> Number::max_spec(a, b) == b,
{
}

/// The patterns that numbers are told by: the sign, infinity, zero and one.
pub proof fn law_numbers_have_these_patterns()
    ensures
        SIGN == 0x8000_0000_0000_0000,
        INFINITY == 0x7ff0_0000_0000_0000,
        Number::zero().bits == 0,
        Number::one().bits == 0x3ff0_0000_0000_0000,
{
}

} // verus!
