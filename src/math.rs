//! Scalar quantities and planar vectors.
//!
//! Lengths, masses and vector components are whole numbers of the smallest
//! unit the simulation resolves, so that every frame conversion is exact.
use vstd::prelude::*;

verus! {

/// A point in simulated time, in whole ticks.
#[derive(Debug, Clone, Copy, PartialEq, Eq, Structural, PartialOrd, Ord, Hash)]
pub struct Time(pub i32);

/// A distance, in metres.
#[derive(Debug, Clone, Copy, PartialEq, Eq, Structural, Hash)]
pub struct Length(pub i64);

/// A mass, in kilograms.
#[derive(Debug, Clone, Copy, PartialEq, Eq, Structural, Hash)]
pub struct Mass(pub i64);

/// The field radius that stands for "no bound": the root field reaches everywhere.
pub const UNBOUNDED: i64 = 9223372036854775807;

impl Length {
    /// The unbounded length that the root field's radius carries.
    pub fn unbounded() -> (r: Length)
        ensures
            r.0 == UNBOUNDED,
    {
        Length(UNBOUNDED)
    }
}

/// A planar vector: a position or a velocity.
#[derive(Debug, Clone, Copy, PartialEq, Eq, Structural, Hash)]
pub struct Vector {
    pub x: i64,
    pub y: i64,
}

/// Whether an integer is representable as a vector component.
pub open spec fn fits(v: int) -> bool {
    i64::MIN <= v <= i64::MAX
}

/// Whether `a + b` is representable componentwise.
pub open spec fn sum_fits(a: Vector, b: Vector) -> bool {
    fits(a.x + b.x) && fits(a.y + b.y)
}

/// Whether `a - b` is representable componentwise.
pub open spec fn diff_fits(a: Vector, b: Vector) -> bool {
    fits(a.x - b.x) && fits(a.y - b.y)
}

/// The componentwise sum, where it fits.
pub open spec fn vec_add(a: Vector, b: Vector) -> Vector {
    Vector { x: (a.x + b.x) as i64, y: (a.y + b.y) as i64 }
}

/// The componentwise difference, where it fits.
pub open spec fn vec_sub(a: Vector, b: Vector) -> Vector {
    Vector { x: (a.x - b.x) as i64, y: (a.y - b.y) as i64 }
}

impl Vector {
    pub fn new(x: i64, y: i64) -> (r: Vector)
        ensures
            r.x == x,
            r.y == y,
    {
        Vector { x, y }
    }

    pub fn zero() -> (r: Vector)
        ensures
            r.x == 0,
            r.y == 0,
    {
        Vector { x: 0, y: 0 }
    }

    /// Componentwise sum.
    pub fn plus(self, other: Vector) -> (r: Vector)
        requires
            sum_fits(self, other),
        ensures
            r == vec_add(self, other),
            r.x == self.x + other.x,
            r.y == self.y + other.y,
    {
        Vector { x: self.x + other.x, y: self.y + other.y }
    }

    /// Componentwise difference.
    pub fn minus(self, other: Vector) -> (r: Vector)
        requires
            diff_fits(self, other),
        ensures
            r == vec_sub(self, other),
            r.x == self.x - other.x,
            r.y == self.y - other.y,
    {
        Vector { x: self.x - other.x, y: self.y - other.y }
    }

    /// Componentwise difference, or `None` where a component leaves the range of `i64`.
    pub fn checked_minus(self, other: Vector) -> (r: Option<Vector>)
        ensures
            r is Some <==> diff_fits(self, other),
            r is Some ==> r.unwrap() == vec_sub(self, other),
    {
        match (self.x.checked_sub(other.x), self.y.checked_sub(other.y)) {
            (Some(x), Some(y)) => Some(Vector { x, y }),
            _ => None,
        }
    }

    /// Componentwise sum, or `None` where a component leaves the range of `i64`.
    pub fn checked_plus(self, other: Vector) -> (r: Option<Vector>)
        ensures
            r is Some <==> sum_fits(self, other),
            r is Some ==> r.unwrap() == vec_add(self, other),
    {
        match (self.x.checked_add(other.x), self.y.checked_add(other.y)) {
            (Some(x), Some(y)) => Some(Vector { x, y }),
            _ => None,
        }
    }
}

} // verus!
