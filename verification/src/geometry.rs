//! Axis-aligned bounding boxes used for collision tests.

use vstd::prelude::*;

verus! {

/// An axis-aligned rectangle in screen space (y grows downward), in pixels.
#[derive(Clone, Copy, Debug, PartialEq, Eq, Structural)]
pub struct Aabb {
    pub x: i32,
    pub y: i32,
    pub w: i32,
    pub h: i32,
}

/// Whether two boxes overlap; touching edges do not count.
pub open spec fn boxes_overlap(a: Aabb, b: Aabb) -> bool {
    &&& a.x < b.x + b.w
    &&& b.x < a.x + a.w
    &&& a.y < b.y + b.h
    &&& b.y < a.y + a.h
}

impl Aabb {
    /// Construct a box from its top-left corner and size.
    pub fn new(x: i32, y: i32, w: i32, h: i32) -> (r: Self)
        ensures
            r == (Aabb { x, y, w, h }),
    {
        Aabb { x, y, w, h }
    }

    /// Right edge (`x + w`).
    pub fn right(&self) -> (r: i32)
        requires
            i32::MIN <= self.x + self.w <= i32::MAX,
        ensures
            r == self.x + self.w,
    {
        self.x + self.w
    }

    /// Bottom edge (`y + h`).
    pub fn bottom(&self) -> (r: i32)
        requires
            i32::MIN <= self.y + self.h <= i32::MAX,
        ensures
            r == self.y + self.h,
    {
        self.y + self.h
    }

    /// Whether this box overlaps `other` (touching edges do not count).
    ///
    /// The edges are compared in 64-bit arithmetic, so no box is too large.
    pub fn intersects(&self, other: &Aabb) -> (r: bool)
        ensures
            r == boxes_overlap(*self, *other),
    {
        let self_right: i64 = self.x as i64 + self.w as i64;
        let self_bottom: i64 = self.y as i64 + self.h as i64;
        let other_right: i64 = other.x as i64 + other.w as i64;
        let other_bottom: i64 = other.y as i64 + other.h as i64;
        (self.x as i64) < other_right && (other.x as i64) < self_right && (self.y as i64)
            < other_bottom && (other.y as i64) < self_bottom
    }
}

/// Overlap is symmetric: `a` overlaps `b` exactly when `b` overlaps `a`.
pub proof fn lemma_overlap_symmetric(a: Aabb, b: Aabb)
    ensures
        boxes_overlap(a, b) == boxes_overlap(b, a),
{
}

/// Whether pixel `(px, py)` lies inside box `a`: `x <= px < x + w` and
/// `y <= py < y + h`.
pub open spec fn contains_pixel(a: Aabb, px: int, py: int) -> bool {
    a.x <= px < a.x + a.w && a.y <= py < a.y + a.h
}

/// Two boxes of positive size overlap exactly when some pixel lies inside
/// both.
pub proof fn lemma_overlap_iff_shared_pixel(a: Aabb, b: Aabb)
    requires
        a.w > 0,
        a.h > 0,
        b.w > 0,
        b.h > 0,
    ensures
        boxes_overlap(a, b) <==> exists|px: int, py: int|
            #[trigger] contains_pixel(a, px, py) && contains_pixel(b, px, py),
{
    if boxes_overlap(a, b) {
        let px = if a.x < b.x {
            b.x as int
        } else {
            a.x as int
        };
        let py = if a.y < b.y {
            b.y as int
        } else {
            a.y as int
        };
        assert(contains_pixel(a, px, py) && contains_pixel(b, px, py));
    }
}

/// Boxes that only touch along an edge do not overlap.
pub proof fn lemma_touching_boxes_do_not_overlap(a: Aabb, b: Aabb)
    requires
        a.x + a.w == b.x || a.y + a.h == b.y,
    ensures
        !boxes_overlap(a, b),
{
}

} // verus!
