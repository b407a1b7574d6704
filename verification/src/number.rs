//! IEEE-754 values held by their bit patterns, with the comparisons that the
//! library needs.

use vstd::prelude::*;

verus! {

/// The arithmetic on counts. Nothing is required of what it returns.
pub trait RatioMath {
    /// A count divided by another.
    fn ratio(&self, part: usize, whole: usize) -> Single;
}

/// An IEEE-754 single-precision value, held by its bit pattern.
#[derive(Clone, Copy, Debug, PartialEq, Eq, Structural)]
pub struct Single {
    pub bits: u32,
}

/// An IEEE-754 double-precision value, held by its bit pattern.
#[derive(Clone, Copy, Debug, PartialEq, Eq, Structural)]
pub struct Double {
    pub bits: u64,
}

/// The sign bit of a single.
pub const SINGLE_SIGN: u32 = 0x8000_0000;

/// The bit pattern of positive infinity; every larger magnitude is a NaN.
pub const SINGLE_INFINITY: u32 = 0x7f80_0000;

/// The sign bit of a double.
pub const DOUBLE_SIGN: u64 = 0x8000_0000_0000_0000;

/// The bit pattern of positive infinity; every larger magnitude is a NaN.
pub const DOUBLE_INFINITY: u64 = 0x7ff0_0000_0000_0000;

/// The bit pattern of the single -0.0, to which any number can be added
/// without a change.
pub const MINUS_ZERO_BITS: u32 = 0x8000_0000;

impl Single {
    /// Whether the sign bit is set.
    pub open spec fn negative(self) -> bool {
        self.bits >= SINGLE_SIGN
    }

    /// The bit pattern without its sign.
    pub open spec fn magnitude(self) -> int {
        if self.negative() {
            self.bits - SINGLE_SIGN
        } else {
            self.bits as int
        }
    }

    /// Whether the value is not a number.
    pub open spec fn nan(self) -> bool {
        self.magnitude() > SINGLE_INFINITY
    }

    /// The place of the value among all values that are numbers: the bit
    /// patterns of one sign are ordered as the values are, and both zeros
    /// stand at 0.
    pub open spec fn rank(self) -> int {
        if self.negative() {
            -self.magnitude()
        } else {
            self.magnitude()
        }
    }

    /// IEEE-754 `==`: false of a NaN, true of the two zeros.
    pub open spec fn same_value(self, other: Self) -> bool {
        !self.nan() && !other.nan() && self.rank() == other.rank()
    }

    /// IEEE-754 `<`: false of a NaN.
    pub open spec fn below(self, other: Self) -> bool {
        !self.nan() && !other.nan() && self.rank() < other.rank()
    }

    /// The value with its sign bit cleared.
    pub open spec fn absolute(self) -> Self {
        Single { bits: self.magnitude() as u32 }
    }

    /// Positive zero.
    pub fn zero() -> (r: Self)
        ensures
            r.bits == 0,
    {
        Single { bits: 0 }
    }

    /// The value that has the given bit pattern.
    pub fn from_bits(bits: u32) -> (r: Self)
        ensures
            r.bits == bits,
    {
        Single { bits }
    }

    /// The bit pattern.
    pub fn to_bits(self) -> (bits: u32)
        ensures
            bits == self.bits,
    {
        self.bits
    }

    /// The value with its sign bit cleared.
    pub fn abs(self) -> (r: Self)
        ensures
            r == self.absolute(),
    {
        if self.bits >= SINGLE_SIGN {
            Single { bits: self.bits - SINGLE_SIGN }
        } else {
            self
        }
    }

    /// Whether the value is not a number.
    pub fn is_nan(self) -> (r: bool)
        ensures
            r == self.nan(),
    {
        self.abs().bits > SINGLE_INFINITY
    }

    /// IEEE-754 `==`.
    pub fn equals(self, other: Self) -> (r: bool)
        ensures
            r == self.same_value(other),
    {
        if self.is_nan() || other.is_nan() {
            return false;
        }
        self.bits == other.bits || (self.abs().bits == 0 && other.abs().bits == 0)
    }

    /// IEEE-754 `<`.
    pub fn less(self, other: Self) -> (r: bool)
        ensures
            r == self.below(other),
    {
        if self.is_nan() || other.is_nan() {
            return false;
        }
        let self_negative: bool = self.bits >= SINGLE_SIGN;
        let other_negative: bool = other.bits >= SINGLE_SIGN;
        if self_negative {
            if other_negative {
                other.abs().bits < self.abs().bits
            } else {
                self.abs().bits != 0 || other.abs().bits != 0
            }
        } else if other_negative {
            false
        } else {
            self.bits < other.bits
        }
    }

    /// IEEE-754 `<=`: false of a NaN.
    pub fn at_most(self, other: Self) -> (r: bool)
        ensures
            r == (self.below(other) || self.same_value(other)),
    {
        self.less(other) || self.equals(other)
    }
}

impl Default for Single {
    fn default() -> (r: Self)
        ensures
            r.bits == 0,
    {
        Single { bits: 0 }
    }
}

impl Default for Double {
    fn default() -> (r: Self)
        ensures
            r.bits == 0,
    {
        Double { bits: 0 }
    }
}

impl Double {
    /// Whether the sign bit is set.
    pub open spec fn negative(self) -> bool {
        self.bits >= DOUBLE_SIGN
    }

    /// The bit pattern without its sign.
    pub open spec fn magnitude(self) -> int {
        if self.negative() {
            self.bits - DOUBLE_SIGN
        } else {
            self.bits as int
        }
    }

    /// Whether the value is not a number.
    pub open spec fn nan(self) -> bool {
        self.magnitude() > DOUBLE_INFINITY
    }

    /// The place of the value among all values that are numbers.
    pub open spec fn rank(self) -> int {
        if self.negative() {
            -self.magnitude()
        } else {
            self.magnitude()
        }
    }

    /// IEEE-754 `==`: false of a NaN, true of the two zeros.
    pub open spec fn same_value(self, other: Self) -> bool {
        !self.nan() && !other.nan() && self.rank() == other.rank()
    }

    /// IEEE-754 `<`: false of a NaN.
    pub open spec fn below(self, other: Self) -> bool {
        !self.nan() && !other.nan() && self.rank() < other.rank()
    }

    /// Positive zero.
    pub fn zero() -> (r: Self)
        ensures
            r.bits == 0,
    {
        Double { bits: 0 }
    }

    /// The value that has the given bit pattern.
    pub fn from_bits(bits: u64) -> (r: Self)
        ensures
            r.bits == bits,
    {
        Double { bits }
    }

    /// The bit pattern.
    pub fn to_bits(self) -> (bits: u64)
        ensures
            bits == self.bits,
    {
        self.bits
    }

    fn magnitude_bits(self) -> (r: u64)
        ensures
            r == self.magnitude(),
    {
        if self.bits >= DOUBLE_SIGN {
            self.bits - DOUBLE_SIGN
        } else {
            self.bits
        }
    }

    /// Whether the value is not a number.
    pub fn is_nan(self) -> (r: bool)
        ensures
            r == self.nan(),
    {
        self.magnitude_bits() > DOUBLE_INFINITY
    }

    /// IEEE-754 `==`.
    pub fn equals(self, other: Self) -> (r: bool)
        ensures
            r == self.same_value(other),
    {
        if self.is_nan() || other.is_nan() {
            return false;
        }
        self.bits == other.bits || (self.magnitude_bits() == 0 && other.magnitude_bits() == 0)
    }

    /// IEEE-754 `<`.
    pub fn less(self, other: Self) -> (r: bool)
        ensures
            r == self.below(other),
    {
        if self.is_nan() || other.is_nan() {
            return false;
        }
        let self_negative: bool = self.bits >= DOUBLE_SIGN;
        let other_negative: bool = other.bits >= DOUBLE_SIGN;
        if self_negative {
            if other_negative {
                other.magnitude_bits() < self.magnitude_bits()
            } else {
                self.magnitude_bits() != 0 || other.magnitude_bits() != 0
            }
        } else if other_negative {
            false
        } else {
            self.bits < other.bits
        }
    }

    /// IEEE-754 `<=`: false of a NaN.
    pub fn at_most(self, other: Self) -> (r: bool)
        ensures
            r == (self.below(other) || self.same_value(other)),
    {
        self.less(other) || self.equals(other)
    }
}

/// `==` and `<` on numbers are decided: of two singles that are numbers,
/// exactly one of less, equal and greater holds.
pub proof fn singles_are_ordered(a: Single, b: Single)
    requires
        !a.nan(),
        !b.nan(),
    ensures
        a.below(b) || b.below(a) || a.same_value(b),
        !(a.below(b) && b.below(a)),
        !(a.below(b) && a.same_value(b)),
        !(b.below(a) && a.same_value(b)),
{
}

impl Single {
    /// The value with its sign bit turned round.
    pub open spec fn negated(self) -> Self {
        if self.negative() {
            Single { bits: (self.bits - SINGLE_SIGN) as u32 }
        } else {
            Single { bits: (self.bits + SINGLE_SIGN) as u32 }
        }
    }

    /// The value with its sign bit turned round.
    pub fn neg(self) -> (r: Self)
        ensures
            r == self.negated(),
    {
        if self.bits >= SINGLE_SIGN {
            Single { bits: self.bits - SINGLE_SIGN }
        } else {
            Single { bits: self.bits + SINGLE_SIGN }
        }
    }

    /// Whether the value is a number and neither below nor above bounds.
    pub open spec fn within(self, low: Self, high: Self) -> bool {
        !self.nan() && low.rank() <= self.rank() <= high.rank()
    }

    /// The value, or the bound that it is beyond; a NaN stays one.
    pub open spec fn clamped(self, low: Self, high: Self) -> Self {
        if self.below(low) {
            low
        } else if high.below(self) {
            high
        } else {
            self
        }
    }

    /// The value, or the bound that it is beyond; a NaN stays one.
    pub fn clamp(self, low: Self, high: Self) -> (r: Self)
        ensures
            r == self.clamped(low, high),
    {
        if self.less(low) {
            low
        } else if high.less(self) {
            high
        } else {
            self
        }
    }

    /// The greater of two values; the other one where one is a NaN.
    pub open spec fn greater(self, other: Self) -> Self {
        if self.nan() || self.below(other) {
            other
        } else {
            self
        }
    }

    /// The greater of two values; the other one where one is a NaN.
    pub fn max(self, other: Self) -> (r: Self)
        ensures
            r == self.greater(other),
    {
        if self.is_nan() || self.less(other) {
            other
        } else {
            self
        }
    }

    /// The lesser of two values; the other one where one is a NaN.
    pub open spec fn lesser(self, other: Self) -> Self {
        if self.nan() || other.below(self) {
            other
        } else {
            self
        }
    }

    /// The lesser of two values; the other one where one is a NaN.
    pub fn min(self, other: Self) -> (r: Self)
        ensures
            r == self.lesser(other),
    {
        if self.is_nan() || other.less(self) {
            other
        } else {
            self
        }
    }
}

impl Double {
    /// The value with its sign bit cleared.
    pub open spec fn absolute(self) -> Self {
        Double { bits: self.magnitude() as u64 }
    }

    /// The value with its sign bit cleared.
    pub fn abs(self) -> (r: Self)
        ensures
            r == self.absolute(),
    {
        Double { bits: self.magnitude_bits() }
    }

    /// Whether the value is a number and neither below nor above bounds.
    pub open spec fn within(self, low: Self, high: Self) -> bool {
        !self.nan() && low.rank() <= self.rank() <= high.rank()
    }

    /// The value, or the bound that it is beyond; a NaN stays one.
    pub open spec fn clamped(self, low: Self, high: Self) -> Self {
        if self.below(low) {
            low
        } else if high.below(self) {
            high
        } else {
            self
        }
    }

    /// The value, or the bound that it is beyond; a NaN stays one.
    pub fn clamp(self, low: Self, high: Self) -> (r: Self)
        ensures
            r == self.clamped(low, high),
    {
        if self.less(low) {
            low
        } else if high.less(self) {
            high
        } else {
            self
        }
    }

    /// The greater of two values; the other one where one is a NaN.
    pub open spec fn greater(self, other: Self) -> Self {
        if self.nan() || self.below(other) {
            other
        } else {
            self
        }
    }

    /// The greater of two values; the other one where one is a NaN.
    pub fn max(self, other: Self) -> (r: Self)
        ensures
            r == self.greater(other),
    {
        if self.is_nan() || self.less(other) {
            other
        } else {
            self
        }
    }

    /// The lesser of two values; the other one where one is a NaN.
    pub open spec fn lesser(self, other: Self) -> Self {
        if self.nan() || other.below(self) {
            other
        } else {
            self
        }
    }

    /// The lesser of two values; the other one where one is a NaN.
    pub fn min(self, other: Self) -> (r: Self)
        ensures
            r == self.lesser(other),
    {
        if self.is_nan() || other.less(self) {
            other
        } else {
            self
        }
    }
}

/// Turning the sign round twice changes nothing, and of a number it turns the
/// order round.
pub proof fn negation_turns_back(a: Single, b: Single)
    ensures
        a.negated().negated() == a,
        a.nan() == a.negated().nan(),
        a.below(b) == b.negated().below(a.negated()),
{
}

/// What is kept inside bounds is inside them, or no number.
pub proof fn clamped_singles_are_inside(x: Single, low: Single, high: Single)
    requires
        !low.nan(),
        !high.nan(),
        low.rank() <= high.rank(),
    ensures
        x.nan() ==> x.clamped(low, high) == x,
        !x.nan() ==> x.clamped(low, high).within(low, high),
        x.within(low, high) ==> x.clamped(low, high) == x,
{
}

/// What is kept inside bounds is inside them, or no number.
pub proof fn clamped_doubles_are_inside(x: Double, low: Double, high: Double)
    requires
        !low.nan(),
        !high.nan(),
        low.rank() <= high.rank(),
    ensures
        x.nan() ==> x.clamped(low, high) == x,
        !x.nan() ==> x.clamped(low, high).within(low, high),
        x.within(low, high) ==> x.clamped(low, high) == x,
{
}

} // verus!
