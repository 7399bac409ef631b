//! Axis-aligned rectangles in integer coordinates.
//!
//! A rectangle is stored by its extremities, covering the half-open area
//! `[x1, x2) x [y1, y2)`. A rectangle with `x2 <= x1` or `y2 <= y1` is empty;
//! malformed (negative-size) inputs thus naturally behave as empty.

use vstd::prelude::*;

verus! {

/// A rectangle given by its top-left and bottom-right extremities.
#[derive(Clone, Copy, PartialEq, Eq, Structural, Debug)]
pub struct Rect {
    pub x1: i32,
    pub y1: i32,
    pub x2: i32,
    pub y2: i32,
}

/// The rectangle covers at least one point.
pub open spec fn rect_nonempty(r: Rect) -> bool {
    r.x1 < r.x2 && r.y1 < r.y2
}

/// The point `(x, y)` lies inside `r`.
pub open spec fn rect_has(r: Rect, x: int, y: int) -> bool {
    r.x1 <= x < r.x2 && r.y1 <= y < r.y2
}

/// The two rectangles share no point.
pub open spec fn rect_disjoint(a: Rect, b: Rect) -> bool {
    a.x2 <= b.x1 || b.x2 <= a.x1 || a.y2 <= b.y1 || b.y2 <= a.y1
}

/// Disjointness by edges indeed means no shared point.
pub proof fn lemma_rect_disjoint_no_common_point(a: Rect, b: Rect)
    requires
        rect_disjoint(a, b),
    ensures
        forall|x: int, y: int| !(rect_has(a, x, y) && rect_has(b, x, y)),
{
}

impl Rect {
    /// Builds a rectangle from its extremities.
    pub fn from_extremities(x1: i32, y1: i32, x2: i32, y2: i32) -> (r: Rect)
        ensures
            r == (Rect { x1, y1, x2, y2 }),
    {
        Rect { x1, y1, x2, y2 }
    }

    /// Builds a rectangle from a location and a size.
    pub fn from_loc_size(x: i32, y: i32, w: i32, h: i32) -> (r: Rect)
        requires
            i32::MIN <= x + w <= i32::MAX,
            i32::MIN <= y + h <= i32::MAX,
        ensures
            r == (Rect { x1: x, y1: y, x2: (x + w) as i32, y2: (y + h) as i32 }),
    {
        Rect { x1: x, y1: y, x2: x + w, y2: y + h }
    }

    /// Whether the rectangle covers no point.
    pub fn is_empty(&self) -> (r: bool)
        ensures
            r == !rect_nonempty(*self),
    {
        self.x2 <= self.x1 || self.y2 <= self.y1
    }

    /// Intersection of two rectangles; `None` when they share no point.
    pub fn intersection(&self, other: &Rect) -> (r: Option<Rect>)
        ensures
            match r {
                Some(c) => {
                    &&& rect_nonempty(c)
                    &&& c == rect_intersection(*self, *other)
                    &&& forall|x: int, y: int|
                        rect_has(c, x, y) <==> rect_has(*self, x, y) && rect_has(*other, x, y)
                },
                None => forall|x: int, y: int| !(rect_has(*self, x, y) && rect_has(*other, x, y)),
            },
    {
        let x1 = if self.x1 >= other.x1 { self.x1 } else { other.x1 };
        let y1 = if self.y1 >= other.y1 { self.y1 } else { other.y1 };
        let x2 = if self.x2 <= other.x2 { self.x2 } else { other.x2 };
        let y2 = if self.y2 <= other.y2 { self.y2 } else { other.y2 };
        if x1 < x2 && y1 < y2 {
            Some(Rect { x1, y1, x2, y2 })
        } else {
            None
        }
    }
}

/// The rectangle two rectangles share: empty when they share no point.
pub open spec fn rect_intersection(a: Rect, b: Rect) -> Rect {
    Rect {
        x1: max_i32(a.x1, b.x1),
        y1: max_i32(a.y1, b.y1),
        x2: min_i32(a.x2, b.x2),
        y2: min_i32(a.y2, b.y2),
    }
}

/// Whether some rectangle of the list contains the point `(x, y)`.
pub open spec fn rects_cover(rs: Seq<Rect>, x: int, y: int) -> bool {
    exists|i: int| 0 <= i < rs.len() && rect_has(#[trigger] rs[i], x, y)
}

/// The larger of two coordinates.
pub open spec fn max_i32(a: i32, b: i32) -> i32 {
    if a >= b { a } else { b }
}

/// The smaller of two coordinates.
pub open spec fn min_i32(a: i32, b: i32) -> i32 {
    if a <= b { a } else { b }
}

} // verus!
