//! Axis-aligned room rectangles with center and intersection queries.

use vstd::prelude::*;

verus! {

/// A rectangle on the map, used to characterise a room.
/// `x2 == x1 + width` and `y2 == y1 + height`.
#[derive(Clone, Copy, Debug, PartialEq, Eq, Structural)]
pub struct Rect {
    pub x1: i32,
    pub y1: i32,
    pub x2: i32,
    pub y2: i32,
}

/// Inclusive-edge intersection: rectangles that merely touch on an edge
/// count as intersecting, which keeps accepted rooms from sharing a wall.
pub open spec fn spec_intersects(a: Rect, b: Rect) -> bool {
    a.x1 <= b.x2 && a.x2 >= b.x1 && a.y1 <= b.y2 && a.y2 >= b.y1
}

pub open spec fn spec_center_x(r: Rect) -> int {
    (r.x1 + r.x2) / 2
}

pub open spec fn spec_center_y(r: Rect) -> int {
    (r.y1 + r.y2) / 2
}

impl Rect {
    pub fn new(x: i32, y: i32, w: i32, h: i32) -> (r: Rect)
        requires
            0 <= w,
            0 <= h,
            x + w <= i32::MAX,
            y + h <= i32::MAX,
        ensures
            r.x1 == x,
            r.y1 == y,
            r.x2 == x + w,
            r.y2 == y + h,
    {
        Rect { x1: x, y1: y, x2: x + w, y2: y + h }
    }

    /// Integer-division midpoint; truncates toward the lower coordinate
    /// when a side has odd length.
    pub fn center(&self) -> (c: (i32, i32))
        requires
            0 <= self.x1 + self.x2 <= i32::MAX,
            0 <= self.y1 + self.y2 <= i32::MAX,
        ensures
            c.0 == spec_center_x(*self),
            c.1 == spec_center_y(*self),
    {
        let center_x = (self.x1 + self.x2) / 2;
        let center_y = (self.y1 + self.y2) / 2;
        (center_x, center_y)
    }

    pub fn intersects_with(&self, other: &Rect) -> (r: bool)
        ensures
            r == spec_intersects(*self, *other),
    {
        (self.x1 <= other.x2) && (self.x2 >= other.x1) && (self.y1 <= other.y2)
            && (self.y2 >= other.y1)
    }
}

} // verus!
