use vstd::prelude::*;

verus! {

/// A cell of the integer grid.
#[derive(Debug, Clone, Copy, PartialEq, Eq, Structural)]
pub struct Position {
    pub x: i32,
    pub y: i32,
}

/// Whether `v` is a value of `i32`.
pub open spec fn fits_i32(v: int) -> bool {
    i32::MIN <= v <= i32::MAX
}

impl Position {
    pub fn new(x: i32, y: i32) -> (p: Position)
        ensures
            p == (Position { x, y }),
    {
        Position { x, y }
    }

    /// The component-wise sum, as mathematical integers.
    pub open spec fn sum_x(self, other: Position) -> int {
        self.x + other.x
    }

    pub open spec fn sum_y(self, other: Position) -> int {
        self.y + other.y
    }

    /// Whether the component-wise sum stays inside `i32`.
    pub open spec fn can_offset(self, delta: Position) -> bool {
        fits_i32(self.sum_x(delta)) && fits_i32(self.sum_y(delta))
    }

    /// The component-wise sum.
    pub open spec fn spec_offset(self, delta: Position) -> Position {
        Position { x: self.sum_x(delta) as i32, y: self.sum_y(delta) as i32 }
    }

    /// The component-wise sum; the sum must not overflow.
    pub fn offset(self, delta: Position) -> (p: Position)
        requires
            self.can_offset(delta),
        ensures
            p == self.spec_offset(delta),
            p.x == self.x + delta.x,
            p.y == self.y + delta.y,
    {
        Position { x: self.x + delta.x, y: self.y + delta.y }
    }
}

} // verus!
