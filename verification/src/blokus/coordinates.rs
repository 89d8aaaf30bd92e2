//! A point in 2D space.

use vstd::prelude::*;

verus! {

/// A point in 2D-space. The x-axis usually points to the right while the
/// y-axis points downwards.
#[derive(Debug, Copy, Clone, PartialEq, Eq, Hash, Structural)]
pub struct Coordinates {
    pub x: i32,
    pub y: i32,
}

impl Coordinates {
    /// Both components stay small enough for exact arithmetic.
    pub open spec fn in_range(self) -> bool {
        -0x4000_0000 < self.x < 0x4000_0000 && -0x4000_0000 < self.y < 0x4000_0000
    }

    /// Creates new coordinates.
    pub fn new(x: i32, y: i32) -> (r: Self)
        ensures
            r == (Coordinates { x, y }),
    {
        Self { x, y }
    }

    /// Rotates these coordinates 90 degrees clockwise.
    pub fn turn_right(self) -> (r: Self)
        requires
            self.x != i32::MIN && self.y != i32::MIN,
        ensures
            r.x == -self.y && r.y == self.x,
    {
        Self::new(-self.y, self.x)
    }

    /// Rotates these coordinates 90 degrees counter-clockwise.
    pub fn turn_left(self) -> (r: Self)
        requires
            self.x != i32::MIN && self.y != i32::MIN,
        ensures
            r.x == self.y && r.y == -self.x,
    {
        Self::new(self.y, -self.x)
    }

    /// Flips the coordinates along the y-axis.
    pub fn flip(self) -> (r: Self)
        requires
            self.x != i32::MIN,
        ensures
            r.x == -self.x && r.y == self.y,
    {
        Self::new(-self.x, self.y)
    }

    /// Negates both components.
    pub fn negated(self) -> (r: Self)
        requires
            self.x != i32::MIN && self.y != i32::MIN,
        ensures
            r.x == -self.x && r.y == -self.y,
    {
        Self::new(-self.x, -self.y)
    }

    /// Adds another point componentwise.
    pub fn plus(self, other: Coordinates) -> (r: Self)
        requires
            self.in_range() && other.in_range(),
        ensures
            r.x == self.x + other.x && r.y == self.y + other.y,
    {
        Self::new(self.x + other.x, self.y + other.y)
    }

    /// Subtracts another point componentwise.
    pub fn minus(self, other: Coordinates) -> (r: Self)
        requires
            self.in_range() && other.in_range(),
        ensures
            r.x == self.x - other.x && r.y == self.y - other.y,
    {
        Self::new(self.x - other.x, self.y - other.y)
    }

    /// Finds the componentwise minimum with another point.
    pub fn min(self, other: Coordinates) -> (r: Self)
        ensures
            r.x == (if self.x <= other.x { self.x } else { other.x }),
            r.y == (if self.y <= other.y { self.y } else { other.y }),
    {
        Self::new(
            if self.x <= other.x { self.x } else { other.x },
            if self.y <= other.y { self.y } else { other.y },
        )
    }

    /// Finds the componentwise maximum with another point.
    pub fn max(self, other: Coordinates) -> (r: Self)
        ensures
            r.x == (if self.x >= other.x { self.x } else { other.x }),
            r.y == (if self.y >= other.y { self.y } else { other.y }),
    {
        Self::new(
            if self.x >= other.x { self.x } else { other.x },
            if self.y >= other.y { self.y } else { other.y },
        )
    }
}

} // verus!
