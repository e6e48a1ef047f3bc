//! The scrolling ground strip at the bottom of the screen: two tiles slide
//! left at [`VELOCITY`] and wrap around to create an endless floor.

use vstd::prelude::*;

verus! {

/// Leftward scroll speed in pixels per step.
pub const VELOCITY: i32 = 5;
/// Width of a single ground tile in pixels.
pub const WIDTH: i32 = 700;

/// The endlessly scrolling base.
#[derive(Clone, Copy, Debug, PartialEq, Eq, Structural)]
pub struct Base {
    /// Top y of the base.
    pub y: i32,
    /// x of the first tile.
    pub x1: i32,
    /// x of the second tile.
    pub x2: i32,
}

impl Base {
    /// First tile's x after scrolling (and wrapping if it left the screen).
    pub open spec fn spec_next_x1(self) -> int {
        let a1 = self.x1 - VELOCITY;
        let a2 = self.x2 - VELOCITY;
        if a1 + WIDTH < 0 { a2 + WIDTH } else { a1 }
    }

    /// Second tile's x after scrolling (and wrapping if it left the screen).
    pub open spec fn spec_next_x2(self) -> int {
        let a2 = self.x2 - VELOCITY;
        if a2 + WIDTH < 0 { self.spec_next_x1() + WIDTH } else { a2 }
    }

    /// Whether one scroll step stays within 32-bit arithmetic.
    pub open spec fn update_in_range(self) -> bool {
        &&& self.x1 - VELOCITY >= i32::MIN
        &&& self.x2 - VELOCITY >= i32::MIN
        &&& self.spec_next_x1() <= i32::MAX
        &&& self.spec_next_x2() <= i32::MAX
    }

    /// The base after one scroll step.
    pub open spec fn spec_updated(self) -> Base {
        Base { y: self.y, x1: self.spec_next_x1() as i32, x2: self.spec_next_x2() as i32 }
    }

    /// The two tiles sit side by side, and the left one has its left edge
    /// in `[-WIDTH, 0]`.
    pub open spec fn tiles_abut(self) -> bool {
        &&& (self.x2 == self.x1 + WIDTH || self.x1 == self.x2 + WIDTH)
        &&& -WIDTH <= self.x1
        &&& -WIDTH <= self.x2
        &&& (self.x1 <= 0 || self.x2 <= 0)
    }

    /// Create a base whose top sits at `y`.
    pub fn new(y: i32) -> (r: Self)
        ensures
            r == (Base { y, x1: 0, x2: WIDTH }),
            r.tiles_abut(),
    {
        Base { y, x1: 0, x2: WIDTH }
    }

    /// Scroll both tiles one step, wrapping whichever has left the screen.
    pub fn update(&mut self)
        requires
            old(self).update_in_range(),
        ensures
            *final(self) == old(self).spec_updated(),
    {
        self.x1 = self.x1 - VELOCITY;
        self.x2 = self.x2 - VELOCITY;

        // `x + WIDTH < 0`, compared without forming the sum.
        if self.x1 < -WIDTH {
            self.x1 = self.x2 + WIDTH;
        }
        if self.x2 < -WIDTH {
            self.x2 = self.x1 + WIDTH;
        }
    }
}

/// Scrolling keeps the two tiles side by side with the left one starting at
/// or before the left screen edge (and never more than a tile width before
/// it), so the floor never shows a hole.
pub proof fn lemma_scroll_keeps_tiles_abutting(b: Base)
    requires
        b.tiles_abut(),
    ensures
        b.update_in_range(),
        b.spec_updated().tiles_abut(),
        b.spec_updated().y == b.y,
{
}

/// A scroll step in numbers: both tiles move 5 left, and a tile whose new
/// right edge (`x + 700`) is left of 0 is placed 700 right of the other
/// tile (the first tile is handled first).
pub proof fn lemma_scroll_rule(b: Base)
    requires
        b.update_in_range(),
    ensures
        b.spec_updated().y == b.y,
        b.spec_updated().x1 == (if b.x1 - 5 + 700 < 0 {
            b.x2 - 5 + 700
        } else {
            b.x1 - 5
        }),
        b.spec_updated().x2 == (if b.x2 - 5 + 700 < 0 {
            b.spec_updated().x1 + 700
        } else {
            b.x2 - 5
        }),
{
}

/// Abutting tiles cover every x in `[0, WIDTH)`, which contains the whole
/// playfield width.
pub proof fn lemma_abutting_tiles_cover(b: Base, x: int)
    requires
        b.tiles_abut(),
        0 <= x < WIDTH,
    ensures
        (b.x1 <= x < b.x1 + WIDTH) || (b.x2 <= x < b.x2 + WIDTH),
{
}

} // verus!
