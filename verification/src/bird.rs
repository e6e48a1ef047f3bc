//! The player bird: vertical physics, the flap impulse, and a cosmetic tilt.
//!
//! A flap sets the velocity to [`JUMP_VELOCITY`]; each step first moves the
//! bird by its velocity and then adds [`GRAVITY`]. The tilt never feeds back
//! into the motion.

use vstd::prelude::*;
use crate::geometry::Aabb;

verus! {

/// Upward impulse applied by a flap (negative because y grows downward).
pub const JUMP_VELOCITY: i32 = -20;
/// Per-step gravitational acceleration.
pub const GRAVITY: i32 = 2;
/// Collision width of the bird, in pixels.
pub const WIDTH: i32 = 40;
/// Collision height of the bird, in pixels.
pub const HEIGHT: i32 = 30;
/// Nose-up tilt (degrees) held shortly after a flap.
pub const MAX_ROTATION: i32 = 25;
/// Degrees the nose drops per step once the bird falls.
pub const ROTATION_VELOCITY: i32 = 20;
/// Tilt at or below which the nose stops dropping.
pub const DIVE_TILT: i32 = -90;
/// How far (px) below the flap height the bird keeps its nose up.
pub const TILT_HOLD_DISTANCE: i32 = 50;

/// The bird, positioned by its top-left corner.
#[derive(Clone, Copy, Debug, PartialEq, Eq, Structural)]
pub struct Bird {
    /// Top-left x (constant during play; the world scrolls past it).
    pub x: i32,
    /// Top-left y.
    pub y: i32,
    /// Vertical velocity.
    pub vel: i32,
    /// Cosmetic tilt in degrees (positive = nose up).
    pub tilt: i32,
    /// The y at which the last flap occurred (the spawn y before any flap);
    /// drives the tilt.
    pub height: i32,
}

/// The tilt after a step that moved a bird with tilt `tilt`, which last
/// flapped at `flap_height`, to `new_y`.
pub open spec fn next_tilt(tilt: int, flap_height: int, new_y: int) -> int {
    if new_y < flap_height + TILT_HOLD_DISTANCE {
        if tilt < MAX_ROTATION {
            MAX_ROTATION as int
        } else {
            tilt
        }
    } else if tilt > DIVE_TILT {
        tilt - ROTATION_VELOCITY
    } else {
        tilt
    }
}

impl Bird {
    /// The bird after a flap.
    pub open spec fn spec_jumped(self) -> Bird {
        Bird { x: self.x, y: self.y, vel: JUMP_VELOCITY, tilt: self.tilt, height: self.y }
    }

    /// Whether one physics step stays within 32-bit arithmetic.
    pub open spec fn update_in_range(self) -> bool {
        &&& i32::MIN <= self.y + self.vel <= i32::MAX
        &&& self.vel + GRAVITY <= i32::MAX
    }

    /// The bird after one physics step.
    pub open spec fn spec_updated(self) -> Bird {
        Bird {
            x: self.x,
            y: (self.y + self.vel) as i32,
            vel: (self.vel + GRAVITY) as i32,
            tilt: next_tilt(self.tilt as int, self.height as int, self.y + self.vel) as i32,
            height: self.height,
        }
    }

    /// Collision box of the bird.
    pub open spec fn spec_bounds(self) -> Aabb {
        Aabb { x: self.x, y: self.y, w: WIDTH, h: HEIGHT }
    }

    /// Spawn a bird at the given top-left position, at rest and level.
    pub fn new(x: i32, y: i32) -> (r: Self)
        ensures
            r.x == x,
            r.y == y,
            r.vel == 0,
            r.tilt == 0,
            r.height == y,
    {
        Bird { x, y, vel: 0, tilt: 0, height: y }
    }

    /// Apply a flap: snap the velocity to the jump impulse.
    pub fn jump(&mut self)
        ensures
            *final(self) == old(self).spec_jumped(),
    {
        self.vel = JUMP_VELOCITY;
        self.height = self.y;
    }

    /// Advance the bird one physics step.
    pub fn update(&mut self)
        requires
            old(self).update_in_range(),
        ensures
            *final(self) == old(self).spec_updated(),
            final(self).y == old(self).y + old(self).vel,
            final(self).vel == old(self).vel + GRAVITY,
    {
        self.y = self.y + self.vel;
        self.vel = self.vel + GRAVITY;

        // Tilt: nose up briefly after a flap, then rotate toward a nose-dive.
        if (self.y as i64) < (self.height as i64) + (TILT_HOLD_DISTANCE as i64) {
            if self.tilt < MAX_ROTATION {
                self.tilt = MAX_ROTATION;
            }
        } else if self.tilt > DIVE_TILT {
            self.tilt = self.tilt - ROTATION_VELOCITY;
        }
    }

    /// Centre of the bird and its velocity, `(x, y, vy)`: the controller's
    /// view of the state.
    pub fn physical_position(&self) -> (r: (i32, i32, i32))
        requires
            self.x + WIDTH / 2 <= i32::MAX,
            self.y + HEIGHT / 2 <= i32::MAX,
        ensures
            r.0 == self.x + WIDTH / 2,
            r.1 == self.y + HEIGHT / 2,
            r.2 == self.vel,
    {
        (self.x + WIDTH / 2, self.y + HEIGHT / 2, self.vel)
    }

    /// Collision box of the bird.
    pub fn bounds(&self) -> (r: Aabb)
        ensures
            r == self.spec_bounds(),
    {
        Aabb::new(self.x, self.y, WIDTH, HEIGHT)
    }
}

/// Tilt (deg) at or below which the bird is drawn nose-diving, wings level.
pub const NOSE_DIVE_TILT: i32 = -80;

/// The wing animation frame for a bird with `tilt` at animation phase
/// `phase`: frames cycle `0 → 1 → 2 → 1`, and a nose-diving bird holds
/// frame 1.
pub open spec fn spec_animation_frame(tilt: int, phase: nat) -> nat {
    if tilt <= NOSE_DIVE_TILT {
        1
    } else if phase % 4 == 0 {
        0
    } else if phase % 4 == 2 {
        2
    } else {
        1
    }
}

/// Pick the sprite frame (`0`, `1` or `2`) for a bird with `tilt` at the
/// animation phase `phase` (the number of whole animation periods elapsed).
pub fn animation_frame(tilt: i32, phase: u64) -> (r: usize)
    ensures
        r == spec_animation_frame(tilt as int, phase as nat),
        r < 3,
{
    if tilt <= NOSE_DIVE_TILT {
        return 1;
    }
    let sequence: [usize; 4] = [0, 1, 2, 1];
    sequence[(phase % 4) as usize]
}

/// The animation in numbers: a bird whose tilt is above −80 shows frames
/// 0, 1, 2, 1 in turn as the phase counts up, repeating every four phases;
/// at or below −80 it shows frame 1.
pub proof fn lemma_animation_cycle(tilt: int, phase: nat)
    ensures
        tilt <= -80 ==> spec_animation_frame(tilt, phase) == 1,
        tilt > -80 ==> spec_animation_frame(tilt, phase) == (if phase % 4 == 0 {
            0nat
        } else if phase % 4 == 1 {
            1nat
        } else if phase % 4 == 2 {
            2nat
        } else {
            1nat
        }),
        spec_animation_frame(tilt, phase + 4) == spec_animation_frame(tilt, phase),
{
    assert((phase + 4) % 4 == phase % 4);
}

/// The tilt stays within `(-110, 25]` degrees once it starts there (as it
/// does for a new bird, and a flap leaves it alone): it is only ever raised
/// to the nose-up angle or lowered by 20 while above the dive angle.
pub proof fn lemma_tilt_stays_bounded(b: Bird)
    requires
        DIVE_TILT - ROTATION_VELOCITY < b.tilt <= MAX_ROTATION,
    ensures
        DIVE_TILT - ROTATION_VELOCITY < b.spec_updated().tilt <= MAX_ROTATION,
        b.spec_jumped().tilt == b.tilt,
{
    let t = next_tilt(b.tilt as int, b.height as int, b.y + b.vel);
    assert(DIVE_TILT - ROTATION_VELOCITY < t <= MAX_ROTATION);
}

/// A physics step in numbers: the bird moves by its velocity and then gains
/// 2; if its new y is less than 50 below the y of its last flap its nose is
/// raised to 25 degrees (or kept, if already higher), otherwise the nose
/// drops 20 degrees while above −90 and holds at or below −90.
pub proof fn lemma_update_rule(b: Bird)
    requires
        b.update_in_range(),
    ensures
        b.spec_updated().x == b.x,
        b.spec_updated().y == b.y + b.vel,
        b.spec_updated().vel == b.vel + 2,
        b.spec_updated().height == b.height,
        b.y + b.vel < b.height + 50 ==> b.spec_updated().tilt == (if b.tilt < 25 {
            25
        } else {
            b.tilt as int
        }),
        b.y + b.vel >= b.height + 50 && b.tilt > -90 ==> b.spec_updated().tilt == b.tilt - 20,
        b.y + b.vel >= b.height + 50 && b.tilt <= -90 ==> b.spec_updated().tilt == b.tilt,
{
}

/// A flap in numbers: the velocity becomes −20 and the current y becomes the
/// flap height; position and tilt stay.
pub proof fn lemma_jump_rule(b: Bird)
    ensures
        b.spec_jumped() == (Bird { x: b.x, y: b.y, vel: -20i32, tilt: b.tilt, height: b.y }),
{
}

/// The motion does not depend on the tilt: two birds that differ only in
/// tilt move identically.
pub proof fn lemma_motion_ignores_tilt(a: Bird, b: Bird)
    requires
        a.x == b.x,
        a.y == b.y,
        a.vel == b.vel,
        a.update_in_range(),
    ensures
        a.spec_updated().x == b.spec_updated().x,
        a.spec_updated().y == b.spec_updated().y,
        a.spec_updated().vel == b.spec_updated().vel,
{
}

} // verus!
