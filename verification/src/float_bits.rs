//! Floating-point numbers as their bit patterns, with the comparisons that the library makes.

use vstd::prelude::*;

verus! {

/// A double-precision number, held as its IEEE 754 bit pattern.
#[derive(Debug, Clone, Copy, PartialEq, Eq, Structural)]
pub struct Real {
    pub bits: u64,
}

/// The bit pattern of the sign.
pub const SIGN: u64 = 0x8000_0000_0000_0000;

/// The bit pattern of positive infinity.
pub const INFINITY_BITS: u64 = 0x7ff0_0000_0000_0000;

/// The bit pattern of negative infinity.
pub const NEG_INFINITY_BITS: u64 = 0xfff0_0000_0000_0000;

impl Real {
    /// The pattern without its sign.
    pub open spec fn magnitude(self) -> int {
        self.bits as int % SIGN as int
    }

    /// Whether the pattern is not a number.
    pub open spec fn nan(self) -> bool {
        self.magnitude() > INFINITY_BITS
    }

    /// An integer that orders the numbers: of two patterns that are numbers, the smaller number
    /// has the smaller key, and equal numbers, such as the two zeros, have the same one.
    pub open spec fn key(self) -> int {
        if self.bits >= SIGN {
            -self.magnitude()
        } else {
            self.magnitude()
        }
    }

    /// Whether both are numbers and the first is no larger.
    pub open spec fn le_spec(self, other: Real) -> bool {
        !self.nan() && !other.nan() && self.key() <= other.key()
    }

    /// Whether both are numbers and the same one.
    pub open spec fn same_spec(self, other: Real) -> bool {
        !self.nan() && !other.nan() && self.key() == other.key()
    }

    /// The smaller one of the two; if one is not a number, the other one.
    pub open spec fn min_spec(self, other: Real) -> Real {
        if self.nan() || (!other.nan() && other.key() < self.key()) {
            other
        } else {
            self
        }
    }

    /// The larger one of the two; if one is not a number, the other one.
    pub open spec fn max_spec(self, other: Real) -> Real {
        if self.nan() || (!other.nan() && other.key() > self.key()) {
            other
        } else {
            self
        }
    }

    /// Positive infinity.
    pub fn infinity() -> (r: Self)
        ensures
            r.bits == INFINITY_BITS,
    {
        Real { bits: INFINITY_BITS }
    }

    /// Negative infinity.
    pub fn neg_infinity() -> (r: Self)
        ensures
            r.bits == NEG_INFINITY_BITS,
    {
        Real { bits: NEG_INFINITY_BITS }
    }

    /// Positive zero.
    pub fn zero() -> (r: Self)
        ensures
            r.bits == 0,
    {
        Real { bits: 0 }
    }

    /// Tells whether the pattern is not a number.
    pub fn is_nan(self) -> (r: bool)
        ensures
            r == self.nan(),
    {
        self.bits % SIGN > INFINITY_BITS
    }

    fn order_key(self) -> (r: i64)
        ensures
            r == self.key(),
    {
        let magnitude: i64 = (self.bits % SIGN) as i64;
        if self.bits >= SIGN {
            -magnitude
        } else {
            magnitude
        }
    }

    /// Tells whether both are numbers and `self` is no larger.
    pub fn less_or_equal(self, other: Real) -> (r: bool)
        ensures
            r == self.le_spec(other),
    {
        !self.is_nan() && !other.is_nan() && self.order_key() <= other.order_key()
    }

    /// Tells whether both are numbers and the same one.
    pub fn same_number(self, other: Real) -> (r: bool)
        ensures
            r == self.same_spec(other),
    {
        !self.is_nan() && !other.is_nan() && self.order_key() == other.order_key()
    }

    /// The smaller one of the two; if one is not a number, the other one.
    pub fn min(self, other: Real) -> (r: Real)
        ensures
            r == self.min_spec(other),
    {
        if self.is_nan() || (!other.is_nan() && other.order_key() < self.order_key()) {
            other
        } else {
            self
        }
    }

    /// The larger one of the two; if one is not a number, the other one.
    pub fn max(self, other: Real) -> (r: Real)
        ensures
            r == self.max_spec(other),
    {
        if self.is_nan() || (!other.is_nan() && other.order_key() > self.order_key()) {
            other
        } else {
            self
        }
    }
}

/// Every number lies between the infinities.
pub proof fn law_infinities_bound(x: Real)
    requires
        !x.nan(),
    ensures
        (Real { bits: NEG_INFINITY_BITS }).le_spec(x),
        x.le_spec(Real { bits: INFINITY_BITS }),
{
}

/// A pattern is not a number exactly if, as IEEE 754 has it, all bits of its exponent are set and
/// some bit of its fraction is.
pub proof fn law_nan_has_full_exponent(x: Real)
    ensures
        x.nan() <==> (x.bits >> 52) & 0x7ff == 0x7ff && x.bits & 0xf_ffff_ffff_ffff != 0,
{
    let bits = x.bits;
    assert(bits % 0x8000_0000_0000_0000 > 0x7ff0_0000_0000_0000 <==> (bits >> 52) & 0x7ff == 0x7ff
        && bits & 0xf_ffff_ffff_ffff != 0) by (bit_vector);
}

/// The order of numbers: without a sign it is that of the patterns, with a sign it is the reverse,
/// and what has a sign is no larger than what has none. Only the two zeros are the same number
/// with different patterns.
pub proof fn law_order_of_numbers(x: Real, y: Real)
    requires
        !x.nan(),
        !y.nan(),
    ensures
        x.bits < SIGN && y.bits < SIGN ==> (x.le_spec(y) <==> x.bits <= y.bits),
        x.bits >= SIGN && y.bits >= SIGN ==> (x.le_spec(y) <==> x.bits >= y.bits),
        x.bits >= SIGN && y.bits < SIGN ==> x.le_spec(y),
        x.same_spec(y) <==> x.le_spec(y) && y.le_spec(x),
        x.same_spec(y) ==> x == y || (x.bits % SIGN == 0 && y.bits % SIGN == 0),
        x.bits % SIGN == 0 && y.bits % SIGN == 0 ==> x.same_spec(y),
        x.le_spec(y) || y.le_spec(x),
{
}

/// What is not a number is in no order with anything, not even with itself, and does not count
/// for the smaller and the larger one of two. Of two numbers, the smaller one is no larger than
/// both, the larger one no smaller, and each is one of them.
pub proof fn law_smaller_and_larger(x: Real, y: Real)
    ensures
        x.nan() ==> !x.le_spec(y) && !y.le_spec(x) && !x.same_spec(x),
        x.nan() ==> x.min_spec(y) == y && x.max_spec(y) == y,
        y.nan() ==> x.min_spec(y) == x && x.max_spec(y) == x || x.nan(),
        !x.nan() && !y.nan() ==> {
            &&& x.min_spec(y).le_spec(x) && x.min_spec(y).le_spec(y)
            &&& x.le_spec(x.max_spec(y)) && y.le_spec(x.max_spec(y))
            &&& x.min_spec(y) == x || x.min_spec(y) == y
            &&& x.max_spec(y) == x || x.max_spec(y) == y
        },
{
}

} // verus!
