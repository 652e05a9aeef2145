//! The values of pixels.

use crate::float_bits::Real;
use vstd::prelude::*;

verus! {

/// The value of a pixel.
#[derive(Debug, Clone, Copy)]
pub enum PixelValue {
    Integer(i128),
    Floating(Real),
}

impl PixelValue {
    /// Whether the value is not a number.
    pub open spec fn nan(self) -> bool {
        self matches PixelValue::Floating(value) && value.nan()
    }

    /// Whether both values are of one type and the same number.
    pub open spec fn same(self, other: PixelValue) -> bool {
        match (self, other) {
            (PixelValue::Integer(a), PixelValue::Integer(b)) => a == b,
            (PixelValue::Floating(a), PixelValue::Floating(b)) => a.same_spec(b),
            _ => false,
        }
    }

    /// Tells whether the value is not a number.
    pub fn is_nan(self) -> (r: bool)
        ensures
            r == self.nan(),
    {
        match self {
            PixelValue::Integer(_) => false,
            PixelValue::Floating(value) => value.is_nan(),
        }
    }

    /// Tells whether both values are of one type and the same number.
    pub fn is_same(self, other: PixelValue) -> (r: bool)
        ensures
            r == self.same(other),
    {
        match (self, other) {
            (PixelValue::Integer(a), PixelValue::Integer(b)) => a == b,
            (PixelValue::Floating(a), PixelValue::Floating(b)) => a.same_number(b),
            _ => false,
        }
    }
}

/// A value is the same as itself unless it is not a number, the order does not matter, values of
/// different types are never the same, and integers only if they are equal.
pub proof fn law_same_values(a: PixelValue, b: PixelValue)
    ensures
        a.same(a) <==> !a.nan(),
        a.same(b) <==> b.same(a),
        a is Integer && b is Floating ==> !a.same(b),
        a is Integer && b is Integer ==> (a.same(b) <==> a == b),
        a is Integer ==> !a.nan(),
{
}

} // verus!
