//! Rectangles: the outlines of rooms.

use vstd::prelude::*;

verus! {

/// An axis-aligned rectangle given by two opposite corners.
///
/// A room's walls lie on the rectangle's border; its floor is the interior.
#[derive(Clone, Copy, Debug, PartialEq, Eq, Structural)]
pub struct Rect {
    pub x1: i32,
    pub y1: i32,
    pub x2: i32,
    pub y2: i32,
}

impl Rect {
    /// The rectangle with top-left corner `(x, y)`, `w` wide and `h` high.
    pub open spec fn spec_new(x: int, y: int, w: int, h: int) -> Rect {
        Rect { x1: x as i32, y1: y as i32, x2: (x + w) as i32, y2: (y + h) as i32 }
    }

    /// The middle of the rectangle, rounding towards zero.
    pub open spec fn spec_center(self) -> (int, int) {
        (half(self.x1 + self.x2), half(self.y1 + self.y2))
    }

    /// Whether two rectangles share at least one point, borders included.
    pub open spec fn spec_intersects_with(self, other: Rect) -> bool {
        &&& self.x1 <= other.x2
        &&& self.x2 >= other.x1
        &&& self.y1 <= other.y2
        &&& self.y2 >= other.y1
    }

    /// Whether `(x, y)` lies strictly inside the rectangle.
    pub open spec fn interior_contains(self, x: int, y: int) -> bool {
        self.x1 < x < self.x2 && self.y1 < y < self.y2
    }

    /// Builds the rectangle with top-left corner `(x, y)`, `w` wide and `h`
    /// high.
    pub fn new(x: i32, y: i32, w: i32, h: i32) -> (r: Rect)
        requires
            i32::MIN <= x + w <= i32::MAX,
            i32::MIN <= y + h <= i32::MAX,
        ensures
            r == Rect::spec_new(x as int, y as int, w as int, h as int),
            r.x1 == x,
            r.y1 == y,
            r.x2 == x + w,
            r.y2 == y + h,
    {
        Rect { x1: x, y1: y, x2: x + w, y2: y + h }
    }

    /// The middle of the rectangle, rounding towards zero.
    pub fn center(&self) -> (c: (i32, i32))
        ensures
            (c.0 as int, c.1 as int) == self.spec_center(),
    {
        let sx: i64 = self.x1 as i64 + self.x2 as i64;
        let sy: i64 = self.y1 as i64 + self.y2 as i64;
        ((sx / 2) as i32, (sy / 2) as i32)
    }

    /// Whether two rectangles share at least one point, borders included.
    pub fn intersects_with(&self, other: &Rect) -> (b: bool)
        ensures
            b == self.spec_intersects_with(*other),
    {
        (self.x1 <= other.x2) && (self.x2 >= other.x1) && (self.y1 <= other.y2) && (self.y2
            >= other.y1)
    }
}

/// Half of `n`, rounding towards zero.
pub open spec fn half(n: int) -> int {
    if n >= 0 {
        n / 2
    } else {
        -((-n) / 2)
    }
}

} // verus!
