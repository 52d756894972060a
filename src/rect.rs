use vstd::prelude::*;

verus! {

/// An axis-aligned rectangle. The tiles strictly right of `x1` and below `y1`,
/// up to `x2` and `y2` inclusive, form the room's floor.
#[derive(Clone, Copy, Debug, PartialEq, Eq, Structural)]
pub struct Rect {
    pub x1: i32,
    pub y1: i32,
    pub x2: i32,
    pub y2: i32,
}

/// Half of `v`, rounded toward zero.
pub open spec fn half(v: int) -> int {
    if v >= 0 { v / 2 } else { -((-v) / 2) }
}

impl Rect {
    /// The two rectangles touch or overlap, walls included.
    pub open spec fn spec_intersect(self, other: Rect) -> bool {
        self.x1 <= other.x2 && self.x2 >= other.x1 && self.y1 <= other.y2 && self.y2 >= other.y1
    }

    pub open spec fn spec_center(self) -> (i32, i32) {
        (half(self.x1 + self.x2) as i32, half(self.y1 + self.y2) as i32)
    }

    /// The tile (x, y) is part of the room's floor.
    pub open spec fn spec_contains_floor(self, x: int, y: int) -> bool {
        self.x1 < x <= self.x2 && self.y1 < y <= self.y2
    }

    /// A rectangle at (x, y) of size w by h.
    pub fn new(x: i32, y: i32, w: i32, h: i32) -> (r: Rect)
        requires
            i32::MIN <= x + w <= i32::MAX,
            i32::MIN <= y + h <= i32::MAX,
        ensures
            r == (Rect { x1: x, y1: y, x2: (x + w) as i32, y2: (y + h) as i32 }),
    {
        Rect { x1: x, y1: y, x2: x + w, y2: y + h }
    }

    /// True if the two rectangles touch or overlap.
    pub fn intersect(&self, other: &Rect) -> (r: bool)
        ensures
            r == self.spec_intersect(*other),
    {
        self.x1 <= other.x2 && self.x2 >= other.x1 && self.y1 <= other.y2 && self.y2 >= other.y1
    }

    /// The middle tile of the rectangle.
    pub fn center(&self) -> (r: (i32, i32))
        ensures
            r == self.spec_center(),
    {
        let cx: i64 = (self.x1 as i64 + self.x2 as i64) / 2;
        let cy: i64 = (self.y1 as i64 + self.y2 as i64) / 2;
        (cx as i32, cy as i32)
    }
}

} // verus!
