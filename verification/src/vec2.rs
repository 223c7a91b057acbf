//! 2D fixed-point vectors and the viewport rectangle.

use vstd::prelude::*;
use crate::POS_LIMIT;

verus! {

/// A 2D point or vector in milli-units (1000 per world unit).
#[derive(Clone, Copy, PartialEq, Eq, Structural, Debug)]
pub struct Vec2 {
    pub x: i64,
    pub y: i64,
}

/// An axis-aligned rectangle: `x, y` is the top-left corner, `w, h` the
/// extent. The viewport supplied by the windowing layer arrives in this
/// form, converted to milli-units.
#[derive(Clone, Copy, PartialEq, Eq, Structural, Debug)]
pub struct Rect {
    pub x: i64,
    pub y: i64,
    pub w: i64,
    pub h: i64,
}

/// The viewport rectangles the systems accept: anchored at non-negative
/// coordinates, at least a few milli-units wide and tall, and contained in
/// the `POS_LIMIT` box so that containment tests and spawn positions never
/// overflow.
pub open spec fn rect_wf(r: Rect) -> bool {
    &&& 0 <= r.x
    &&& 0 <= r.y
    &&& 7 <= r.w
    &&& 7 <= r.h
    &&& r.x + r.w <= POS_LIMIT
    &&& r.y + r.h <= POS_LIMIT
}

/// Coordinate magnitude up to which `dist_sq` is free of overflow.
pub const DIST_COORD_LIMIT: i64 = 0x2000_0000_0000_0000;

impl Vec2 {
    pub fn new(x: i64, y: i64) -> (v: Vec2)
        ensures
            v == (Vec2 { x, y }),
    {
        Vec2 { x, y }
    }

    /// Containment in a rectangle, inclusive on all four sides.
    pub open spec fn in_rect_spec(self, r: Rect) -> bool {
        &&& r.x <= self.x <= r.x + r.w
        &&& r.y <= self.y <= r.y + r.h
    }

    pub fn in_rect(self, r: Rect) -> (b: bool)
        requires
            rect_wf(r),
        ensures
            b == self.in_rect_spec(r),
    {
        self.x >= r.x && self.x <= r.x + r.w && self.y >= r.y && self.y <= r.y + r.h
    }

    /// The square of the Euclidean distance between two points.
    pub open spec fn dist_sq_spec(self, o: Vec2) -> int {
        (self.x - o.x) * (self.x - o.x) + (self.y - o.y) * (self.y - o.y)
    }

    pub fn dist_sq(self, o: Vec2) -> (d: i128)
        requires
            -DIST_COORD_LIMIT <= self.x <= DIST_COORD_LIMIT,
            -DIST_COORD_LIMIT <= self.y <= DIST_COORD_LIMIT,
            -DIST_COORD_LIMIT <= o.x <= DIST_COORD_LIMIT,
            -DIST_COORD_LIMIT <= o.y <= DIST_COORD_LIMIT,
        ensures
            d == self.dist_sq_spec(o),
    {
        let dx: i128 = self.x as i128 - o.x as i128;
        let dy: i128 = self.y as i128 - o.y as i128;
        proof {
            lemma_square_bound(dx as int);
            lemma_square_bound(dy as int);
        }
        dx * dx + dy * dy
    }

    /// Componentwise addition.
    pub fn plus(self, o: Vec2) -> (v: Vec2)
        requires
            i64::MIN <= self.x + o.x <= i64::MAX,
            i64::MIN <= self.y + o.y <= i64::MAX,
        ensures
            v == (Vec2 { x: (self.x + o.x) as i64, y: (self.y + o.y) as i64 }),
    {
        Vec2 { x: self.x + o.x, y: self.y + o.y }
    }

    /// Multiplication by a scalar.
    pub fn scale(self, k: i64) -> (v: Vec2)
        requires
            i64::MIN <= self.x * k <= i64::MAX,
            i64::MIN <= self.y * k <= i64::MAX,
        ensures
            v == (Vec2 { x: (self.x * k) as i64, y: (self.y * k) as i64 }),
    {
        Vec2 { x: self.x * k, y: self.y * k }
    }
}

/// A coordinate difference of two values in the `DIST_COORD_LIMIT` box has a
/// square below `i128::MAX / 2`, so a sum of two such squares fits in `i128`.
proof fn lemma_square_bound(d: int)
    requires
        -2 * (DIST_COORD_LIMIT as int) <= d <= 2 * (DIST_COORD_LIMIT as int),
    ensures
        0 <= d * d <= (2 * (DIST_COORD_LIMIT as int)) * (2 * (DIST_COORD_LIMIT as int)),
{
    assert(0 <= d * d <= (2 * (DIST_COORD_LIMIT as int)) * (2 * (DIST_COORD_LIMIT as int)))
        by (nonlinear_arith)
        requires -2 * (DIST_COORD_LIMIT as int) <= d <= 2 * (DIST_COORD_LIMIT as int);
}

} // verus!
