use vstd::prelude::*;

verus! {

/// A rectangle on the screen, in integer pixels.
#[derive(Debug, Clone, Copy, PartialEq, Eq, Structural)]
pub struct Region {
    pub x: u32,
    pub y: u32,
    pub width: u32,
    pub height: u32,
}

impl Region {
    /// Exclusive right edge, as a mathematical integer.
    pub open spec fn spec_right(self) -> int {
        self.x + self.width
    }

    /// Exclusive bottom edge, as a mathematical integer.
    pub open spec fn spec_bottom(self) -> int {
        self.y + self.height
    }

    /// Whether the point lies inside the rectangle (right and bottom edges excluded).
    pub open spec fn spec_contains(self, px: int, py: int) -> bool {
        self.x <= px < self.spec_right() && self.y <= py < self.spec_bottom()
    }

    pub fn new(x: u32, y: u32, width: u32, height: u32) -> (r: Region)
        ensures
            r == (Region { x, y, width, height }),
    {
        Region { x, y, width, height }
    }

    pub fn contains(&self, px: u32, py: u32) -> (r: bool)
        ensures
            r == self.spec_contains(px as int, py as int),
    {
        px >= self.x && (px as u64) < (self.x as u64) + (self.width as u64) && py >= self.y
            && (py as u64) < (self.y as u64) + (self.height as u64)
    }

    pub fn right(&self) -> (r: u32)
        requires
            self.spec_right() <= u32::MAX,
        ensures
            r == self.spec_right(),
    {
        self.x + self.width
    }

    pub fn bottom(&self) -> (r: u32)
        requires
            self.spec_bottom() <= u32::MAX,
        ensures
            r == self.spec_bottom(),
    {
        self.y + self.height
    }
}

} // verus!
