//! Flappy Bird flown by a model-predictive controller.
//!
//! The crate owns the simulation entities ([`bird::Bird`], [`pipe::Pipe`],
//! [`base::Base`]), their integer pixel physics, collision via
//! [`geometry::Aabb`], the exact MPC policy ([`controller::Controller`]) and
//! the fixed-step game loop ([`game::Game`]). It draws nothing.

pub mod base;
pub mod bird;
pub mod controller;
pub mod game;
pub mod geometry;
pub mod pipe;

pub use base::Base;
pub use bird::Bird;
pub use geometry::Aabb;
pub use pipe::Pipe;

use vstd::prelude::*;
use crate::pipe::WIDTH as PIPE_WIDTH;

verus! {

/// Logical playfield width in pixels.
pub const SCREEN_WIDTH: i32 = 500;
/// Logical playfield height in pixels.
pub const SCREEN_HEIGHT: i32 = 800;
/// Y of the top of the base / ground.
pub const GROUND_Y: i32 = 730;
/// Fixed x at which the bird is held while the world scrolls past it.
pub const BIRD_X: i32 = 230;
/// Initial y of the bird.
pub const BIRD_START_Y: i32 = 350;
/// x at which new pipes spawn.
pub const PIPE_SPAWN_X: i32 = 600;

/// The pipe the bird must clear next: the first pipe while the bird is left
/// of its right edge, the most recently spawned pipe otherwise.
pub open spec fn spec_pipe_in_front(bird: Bird, pipes: Seq<Pipe>) -> Pipe {
    if bird.x < pipes[0].x + PIPE_WIDTH {
        pipes[0]
    } else {
        pipes.last()
    }
}

/// Pick the pipe the bird must clear next.
///
/// While the bird is still to the left of the first pipe's right edge, that
/// pipe is the target; otherwise the most recently spawned pipe is. There
/// must be at least one pipe.
pub fn pipe_in_front<'a>(bird: &Bird, pipes: &'a [Pipe]) -> (r: &'a Pipe)
    requires
        pipes@.len() > 0,
    ensures
        *r == spec_pipe_in_front(*bird, pipes@),
{
    // The right edge `x + WIDTH`, formed in 64 bits so no pipe is too far right.
    if (bird.x as i64) < (pipes[0].x as i64) + (PIPE_WIDTH as i64) {
        &pipes[0]
    } else {
        &pipes[pipes.len() - 1]
    }
}

/// The pipe ahead is the first pipe exactly while the bird's left edge is
/// left of that pipe's right edge (`x + 80`), so while the bird is anywhere
/// in its column; from the moment the bird reaches that edge it is the
/// newest pipe.
pub proof fn lemma_pipe_in_front_targets_first_until_cleared(bird: Bird, pipes: Seq<Pipe>)
    requires
        pipes.len() > 0,
    ensures
        bird.x < pipes[0].x + 80 ==> spec_pipe_in_front(bird, pipes) == pipes[0],
        bird.x >= pipes[0].x + 80 ==> spec_pipe_in_front(bird, pipes) == pipes[pipes.len() - 1],
        pipes[0].x <= bird.x < pipes[0].x + 80 ==> spec_pipe_in_front(bird, pipes) == pipes[0],
{
}

} // verus!
