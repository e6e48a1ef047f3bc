//! A pipe pair with a vertical gap the bird must fly through: a random gap
//! top in `[50, 450)`, a fixed [`GAP`] below it, and a constant leftward
//! scroll at [`VELOCITY`] px/step.

use vstd::prelude::*;
use rand::Rng;
use crate::bird::{Bird, HEIGHT as BIRD_HEIGHT, WIDTH as BIRD_WIDTH};
use crate::geometry::{boxes_overlap, Aabb};

verus! {

/// Vertical size of the gap between the top and bottom pipe.
pub const GAP: i32 = 200;
/// Leftward scroll speed in pixels per step.
pub const VELOCITY: i32 = 5;
/// Width of a pipe in pixels.
pub const WIDTH: i32 = 80;
/// Y of the base/ground; the bottom pipe reaches down to here.
pub const GROUND_Y: i32 = 730;
/// Smallest gap top a new pipe draws.
pub const GAP_TOP_MIN: i32 = 50;
/// Bound (exclusive) on the gap top a new pipe draws.
pub const GAP_TOP_MAX: i32 = 450;

/// A scrolling pipe pair.
#[derive(Clone, Copy, Debug, PartialEq, Eq, Structural)]
pub struct Pipe {
    /// Left edge x of both pipes.
    pub x: i32,
    /// Top edge of the gap (bottom of the upper pipe).
    pub gap_top: i32,
    /// Bottom edge of the gap (top of the lower pipe).
    pub gap_bottom: i32,
    /// Whether the bird has already cleared this pipe (for scoring).
    pub passed: bool,
}

/// Draws a value uniformly from `[low, high)` with
/// `rand::thread_rng().gen_range(low..high)`. The crate documents that the
/// value lies in the half-open range and that an empty range panics; which
/// value comes out is left to chance.
#[verifier::external_body]
fn random_in_range(low: i32, high: i32) -> (r: i32)
    requires
        low < high,
    ensures
        low <= r < high,
{
    rand::thread_rng().gen_range(low..high)
}

impl Pipe {
    /// Collision box of the upper pipe (from the top of the screen to the gap).
    pub open spec fn spec_top_bounds(self) -> Aabb {
        Aabb { x: self.x, y: 0, w: WIDTH, h: self.gap_top }
    }

    /// Collision box of the lower pipe (from the gap down to the ground).
    pub open spec fn spec_bottom_bounds(self) -> Aabb {
        Aabb { x: self.x, y: self.gap_bottom, w: WIDTH, h: (GROUND_Y - self.gap_bottom) as i32 }
    }

    /// Whether the lower pipe's height fits 32-bit arithmetic.
    pub open spec fn bottom_in_range(self) -> bool {
        GROUND_Y - self.gap_bottom <= i32::MAX
    }

    /// Whether `bird`'s box overlaps either pipe of this pair.
    pub open spec fn spec_collides(self, bird: Bird) -> bool {
        boxes_overlap(bird.spec_bounds(), self.spec_top_bounds())
            || boxes_overlap(bird.spec_bounds(), self.spec_bottom_bounds())
    }

    /// A pipe at `x` whose gap starts at `gap_top`, not yet passed.
    pub open spec fn spec_with_gap_top(x: int, gap_top: int) -> Pipe {
        Pipe { x: x as i32, gap_top: gap_top as i32, gap_bottom: (gap_top + GAP) as i32, passed: false }
    }

    /// Create a pipe at horizontal position `x` with a randomly placed gap
    /// whose top lies in `[50, 450)`.
    pub fn new(x: i32) -> (r: Self)
        ensures
            GAP_TOP_MIN <= r.gap_top < GAP_TOP_MAX,
            r == Pipe::spec_with_gap_top(x as int, r.gap_top as int),
    {
        Self::with_gap_top(x, random_in_range(GAP_TOP_MIN, GAP_TOP_MAX))
    }

    /// Create a pipe with an explicit gap top.
    pub fn with_gap_top(x: i32, gap_top: i32) -> (r: Self)
        requires
            gap_top + GAP <= i32::MAX,
        ensures
            r == Pipe::spec_with_gap_top(x as int, gap_top as int),
            r.x == x,
            r.gap_top == gap_top,
            r.gap_bottom == gap_top + GAP,
            !r.passed,
    {
        Pipe { x, gap_top, gap_bottom: gap_top + GAP, passed: false }
    }

    /// Scroll the pipe one step to the left.
    pub fn update(&mut self)
        requires
            old(self).x - VELOCITY >= i32::MIN,
        ensures
            *final(self) == (Pipe { x: (old(self).x - VELOCITY) as i32, ..*old(self) }),
    {
        self.x = self.x - VELOCITY;
    }

    /// Right edge of the pipe (`x + WIDTH`).
    pub fn right(&self) -> (r: i32)
        requires
            self.x + WIDTH <= i32::MAX,
        ensures
            r == self.x + WIDTH,
    {
        self.x + WIDTH
    }

    /// Collision box of the upper pipe (from the top of the screen to the gap).
    pub fn top_bounds(&self) -> (r: Aabb)
        ensures
            r == self.spec_top_bounds(),
    {
        Aabb::new(self.x, 0, WIDTH, self.gap_top)
    }

    /// Collision box of the lower pipe (from the gap down to the ground).
    pub fn bottom_bounds(&self) -> (r: Aabb)
        requires
            self.bottom_in_range(),
        ensures
            r == self.spec_bottom_bounds(),
            r.h == GROUND_Y - self.gap_bottom,
    {
        Aabb::new(self.x, self.gap_bottom, WIDTH, GROUND_Y - self.gap_bottom)
    }

    /// Whether the bird collides with either pipe of this pair.
    pub fn collides(&self, bird: &Bird) -> (r: bool)
        requires
            self.bottom_in_range(),
        ensures
            r == self.spec_collides(*bird),
    {
        let b = bird.bounds();
        b.intersects(&self.top_bounds()) || b.intersects(&self.bottom_bounds())
    }

    /// Gap edges `(lower, upper)` for the controller, where `lower` is the
    /// larger-y bottom edge.
    pub fn controller_limits(&self) -> (r: (i32, i32))
        ensures
            r == (self.gap_bottom, self.gap_top),
    {
        (self.gap_bottom, self.gap_top)
    }
}

/// A bird that is on screen collides with a pipe exactly when their columns
/// overlap and the bird's box reaches above the gap top or below the gap
/// bottom; a bird wholly inside the gap never collides.
pub proof fn lemma_collides_iff_outside_gap(p: Pipe, b: Bird)
    requires
        0 <= b.y,
        b.y + BIRD_HEIGHT <= GROUND_Y,
        p.bottom_in_range(),
    ensures
        p.spec_collides(b) <==> (b.x < p.x + WIDTH && p.x < b.x + BIRD_WIDTH && (b.y < p.gap_top
            || p.gap_bottom < b.y + BIRD_HEIGHT)),
{
}

/// A pipe made with a gap top has its lower gap edge exactly [`GAP`] below
/// the upper one, so the lower limit handed to the controller is the larger y.
pub proof fn lemma_limits_bottom_below_top(x: int, gap_top: int)
    requires
        i32::MIN <= x <= i32::MAX,
        i32::MIN <= gap_top,
        gap_top + GAP <= i32::MAX,
    ensures
        Pipe::spec_with_gap_top(x, gap_top).gap_bottom - Pipe::spec_with_gap_top(x, gap_top).gap_top
            == GAP,
        Pipe::spec_with_gap_top(x, gap_top).gap_bottom > Pipe::spec_with_gap_top(x, gap_top).gap_top,
{
}

} // verus!
