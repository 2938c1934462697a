use vstd::prelude::*;

verus! {

/// A rectangular region of character cells, in absolute screen coordinates.
#[derive(Clone, Copy, PartialEq, Eq, Structural, Debug)]
pub struct Rect {
    pub x: u16,
    pub y: u16,
    pub width: u16,
    pub height: u16,
}

impl Rect {
    /// The coordinate sums stay within `u16`, so every cell position inside
    /// the rectangle can be computed without overflow.
    pub open spec fn fits(self) -> bool {
        self.x + self.width <= u16::MAX && self.y + self.height <= u16::MAX
    }

    /// Whether the cell at column `x`, row `y` lies inside this rectangle.
    pub open spec fn contains_cell(self, x: int, y: int) -> bool {
        self.x <= x < self.x + self.width && self.y <= y < self.y + self.height
    }

    /// A rectangle with no cells at all.
    pub open spec fn is_degenerate(self) -> bool {
        self.width == 0 || self.height == 0
    }
}

} // verus!
