//! Plain two-dimensional vectors for positions, offsets and pointer
//! coordinates on the planning surface.

use vstd::prelude::*;

verus! {

/// A position or displacement on the planning surface, in whole units.
#[derive(Clone, Copy, Debug, PartialEq, Eq, Structural)]
pub struct Vec2 {
    pub x: i64,
    pub y: i64,
}

/// The componentwise sum of `a` and `b` stays within the coordinate type.
pub open spec fn sum_fits(a: Vec2, b: Vec2) -> bool {
    &&& i64::MIN <= a.x + b.x <= i64::MAX
    &&& i64::MIN <= a.y + b.y <= i64::MAX
}

/// `start + (pointer - pointer_start)` stays within the coordinate type,
/// componentwise: the shape of every drag and pan update.
pub open spec fn shift_fits(start: Vec2, pointer: Vec2, pointer_start: Vec2) -> bool {
    &&& i64::MIN <= start.x + pointer.x - pointer_start.x <= i64::MAX
    &&& i64::MIN <= start.y + pointer.y - pointer_start.y <= i64::MAX
}

/// The value `start + (pointer - pointer_start)` as a vector again; it is
/// the mathematical result exactly when `shift_fits` holds.
pub open spec fn shifted_spec(start: Vec2, pointer: Vec2, pointer_start: Vec2) -> Vec2 {
    Vec2 {
        x: (start.x + pointer.x - pointer_start.x) as i64,
        y: (start.y + pointer.y - pointer_start.y) as i64,
    }
}

impl Vec2 {
    /// The origin.
    pub fn zero() -> (v: Vec2)
        ensures
            v == (Vec2 { x: 0, y: 0 }),
    {
        Vec2 { x: 0, y: 0 }
    }

    /// Componentwise sum.
    pub fn plus(self, other: Vec2) -> (r: Vec2)
        requires
            sum_fits(self, other),
        ensures
            r.x == self.x + other.x,
            r.y == self.y + other.y,
    {
        Vec2 { x: self.x + other.x, y: self.y + other.y }
    }

    /// `start + (pointer - pointer_start)`: the position a drag session moves
    /// its target to. Intermediate differences are taken at double width, so
    /// only the end result needs to fit.
    pub fn shifted(self, pointer: Vec2, pointer_start: Vec2) -> (r: Vec2)
        requires
            shift_fits(self, pointer, pointer_start),
        ensures
            r.x == self.x + pointer.x - pointer_start.x,
            r.y == self.y + pointer.y - pointer_start.y,
            r == shifted_spec(self, pointer, pointer_start),
    {
        let x_wide: i128 = self.x as i128 + pointer.x as i128 - pointer_start.x as i128;
        let y_wide: i128 = self.y as i128 + pointer.y as i128 - pointer_start.y as i128;
        Vec2 { x: x_wide as i64, y: y_wide as i64 }
    }
}

} // verus!
