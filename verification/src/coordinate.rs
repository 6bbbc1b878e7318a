//! Points of the plane, held as bit patterns of double precision numbers.

use vstd::prelude::*;

verus! {

/// All bits of a double precision number but its sign.
pub const MAGNITUDE_MASK: u64 = 0x7fff_ffff_ffff_ffff;

/// The magnitude bits of an infinity; any larger magnitude is not a number.
pub const INFINITY_BITS: u64 = 0x7ff0_0000_0000_0000;

/// The bit pattern stands for a number (finite or infinite) and not for a
/// not-a-number value.
pub open spec fn is_number(bits: u64) -> bool {
    (bits & MAGNITUDE_MASK) <= INFINITY_BITS
}

/// The bit pattern stands for zero, of either sign.
pub open spec fn is_zero(bits: u64) -> bool {
    (bits & MAGNITUDE_MASK) == 0
}

/// Numeric equality of two double precision numbers given by their bit
/// patterns: both are numbers, and they have the same bits or are both zero.
pub open spec fn same_number(a: u64, b: u64) -> bool {
    is_number(a) && is_number(b) && (a == b || (is_zero(a) && is_zero(b)))
}

/// A point of the plane. Each axis holds the bit pattern of a double precision
/// number; an altitude is not kept.
#[derive(Clone, Copy, Debug, PartialEq, Eq)]
pub struct Coordinate {
    pub x: u64,
    pub y: u64,
}

/// Two points coincide: they are numerically equal on both axes.
pub open spec fn same_point(p: Coordinate, q: Coordinate) -> bool {
    same_number(p.x, q.x) && same_number(p.y, q.y)
}

/// Decides numeric equality of two bit patterns.
pub fn numbers_equal(a: u64, b: u64) -> (equal: bool)
    ensures
        equal == same_number(a, b),
{
    let magnitude_a: u64 = a & MAGNITUDE_MASK;
    let magnitude_b: u64 = b & MAGNITUDE_MASK;
    magnitude_a <= INFINITY_BITS && magnitude_b <= INFINITY_BITS && (a == b || (magnitude_a == 0
        && magnitude_b == 0))
}

impl Coordinate {
    /// A point from the bit patterns of its two axes.
    pub fn new(x: u64, y: u64) -> (point: Coordinate)
        ensures
            point == (Coordinate { x, y }),
    {
        Coordinate { x, y }
    }

    /// Decides whether two points coincide.
    pub fn coincides(&self, other: &Coordinate) -> (equal: bool)
        ensures
            equal == same_point(*self, *other),
    {
        numbers_equal(self.x, other.x) && numbers_equal(self.y, other.y)
    }
}

/// Numeric equality is symmetric.
pub proof fn same_number_symmetric(a: u64, b: u64)
    ensures
        same_number(a, b) == same_number(b, a),
{
}

/// A bit pattern that stands for a number equals itself; one that does not
/// equals nothing, itself included.
pub proof fn same_number_reflexive(a: u64)
    ensures
        same_number(a, a) == is_number(a),
{
}

} // verus!
