//! Game state and the fixed-step update that ties the entities to the MPC.
//!
//! Each step queries the controller, applies the flap, integrates the bird,
//! then resolves pipes (collisions, scoring, spawning, despawning), checks
//! the screen bounds and scrolls the ground. Nothing here draws.

use vstd::prelude::*;
use crate::{pipe_in_front, spec_pipe_in_front, BIRD_START_Y, BIRD_X, GROUND_Y, PIPE_SPAWN_X};
use crate::base::{lemma_scroll_keeps_tiles_abutting, Base, WIDTH as BASE_WIDTH};
use crate::bird::{Bird, HEIGHT as BIRD_HEIGHT, WIDTH as BIRD_WIDTH};
use crate::controller::{flap_decision, BirdState, Controller, GapLimits};
use crate::pipe::{
    Pipe,
    GAP,
    GAP_TOP_MAX,
    GAP_TOP_MIN,
    VELOCITY as PIPE_VELOCITY,
    WIDTH as PIPE_WIDTH,
};

verus! {

/// The state the controller sees: the centre of the bird and its velocity.
pub open spec fn controller_state(bird: Bird) -> BirdState {
    BirdState {
        x: (bird.x + BIRD_WIDTH / 2) as i32,
        y: (bird.y + BIRD_HEIGHT / 2) as i32,
        vy: bird.vel,
    }
}

/// The gap limits handed to the controller for pipe `p`.
pub open spec fn controller_limits_of(p: Pipe) -> GapLimits {
    GapLimits { lower: p.gap_bottom, upper: p.gap_top }
}

/// Whether pipe `p` is cleared in this step by a bird at `bird_x`.
pub open spec fn newly_passed(p: Pipe, bird_x: int) -> bool {
    !p.passed && p.x < bird_x
}

/// Pipe `p` after one step: marked passed once its left edge is left of the
/// bird, and scrolled left.
pub open spec fn scrolled_pipe(p: Pipe, bird_x: int) -> Pipe {
    Pipe {
        x: (p.x - PIPE_VELOCITY) as i32,
        gap_top: p.gap_top,
        gap_bottom: p.gap_bottom,
        passed: p.passed || p.x < bird_x,
    }
}

/// Whether pipe `p` has left the screen (its right edge is left of 0).
pub open spec fn pipe_despawns(p: Pipe) -> bool {
    p.x + PIPE_WIDTH < 0
}

/// The pipes kept after one step, in order: every pipe that has not left the
/// screen, scrolled.
pub open spec fn surviving_pipes(pipes: Seq<Pipe>, bird_x: int) -> Seq<Pipe>
    decreases pipes.len(),
{
    if pipes.len() == 0 {
        Seq::empty()
    } else {
        let rest = surviving_pipes(pipes.drop_last(), bird_x);
        if pipe_despawns(pipes.last()) {
            rest
        } else {
            rest.push(scrolled_pipe(pipes.last(), bird_x))
        }
    }
}

/// Whether some pipe is cleared in this step (which scores and spawns a pipe).
pub open spec fn any_newly_passed(pipes: Seq<Pipe>, bird_x: int) -> bool {
    exists|i: int| 0 <= i < pipes.len() && newly_passed(#[trigger] pipes[i], bird_x)
}

/// Whether the bird collides with some pipe.
pub open spec fn any_collides(pipes: Seq<Pipe>, bird: Bird) -> bool {
    exists|i: int| 0 <= i < pipes.len() && (#[trigger] pipes[i]).spec_collides(bird)
}

/// Whether the bird has hit the ground or left the top of the screen.
pub open spec fn hits_screen_edge(bird: Bird) -> bool {
    bird.y + BIRD_HEIGHT > GROUND_Y || bird.y < 0
}

/// Whether one step of pipe `p` stays within 32-bit arithmetic.
pub open spec fn pipe_step_in_range(p: Pipe) -> bool {
    &&& p.x - PIPE_VELOCITY >= i32::MIN
    &&& p.x + PIPE_WIDTH <= i32::MAX
    &&& p.bottom_in_range()
}

/// Where a pipe of a running game may be, relative to a bird at `bird_x`:
/// on or just past the screen, with a gap drawn from `[50, 450)`, and, if
/// not yet cleared, no further left than one scroll step past the bird.
pub open spec fn pipe_in_play(p: Pipe, bird_x: int) -> bool {
    &&& -PIPE_WIDTH - PIPE_VELOCITY <= p.x <= PIPE_SPAWN_X
    &&& GAP_TOP_MIN <= p.gap_top < GAP_TOP_MAX
    &&& p.gap_bottom == p.gap_top + GAP
    &&& !p.passed ==> p.x >= bird_x - PIPE_VELOCITY
}

/// Whether the pipes are in strictly increasing x, oldest first.
pub open spec fn pipes_in_order(pipes: Seq<Pipe>) -> bool {
    forall|i: int, j: int| 0 <= i < j < pipes.len() ==> #[trigger] pipes[i].x < #[trigger] pipes[j].x
}

/// The complete state of one play-through.
pub struct Game {
    pub bird: Bird,
    pub base: Base,
    pub pipes: Vec<Pipe>,
    pub controller: Controller,
    pub score: u32,
    pub alive: bool,
    /// Whether the controller flapped on the most recent step.
    pub last_flap: bool,
    /// The gap limits the controller saw last step.
    pub last_limits: GapLimits,
}

impl Game {
    /// The pipe ahead of the bird.
    pub open spec fn spec_front(self) -> Pipe {
        spec_pipe_in_front(self.bird, self.pipes@)
    }

    /// The gap limits the controller is given.
    pub open spec fn spec_limits(self) -> GapLimits {
        controller_limits_of(self.spec_front())
    }

    /// Whether the controller flaps in this step.
    pub open spec fn spec_decision(self) -> bool {
        flap_decision(
            controller_state(self.bird),
            self.spec_limits(),
            self.controller.spec_horizon(),
        )
    }

    /// The bird after the controller's decision is applied.
    pub open spec fn spec_flapped_bird(self) -> Bird {
        if self.spec_decision() {
            self.bird.spec_jumped()
        } else {
            self.bird
        }
    }

    /// The bird at the end of this step.
    pub open spec fn spec_moved_bird(self) -> Bird {
        self.spec_flapped_bird().spec_updated()
    }

    /// Whether this step clears a pipe, which scores and spawns a new pipe.
    pub open spec fn spec_spawns(self) -> bool {
        any_newly_passed(self.pipes@, self.bird.x as int)
    }

    /// Whether a step of a running game stays within 32-bit arithmetic
    /// (there must also be a pipe ahead).
    pub open spec fn step_in_range(self) -> bool {
        &&& self.pipes@.len() > 0
        &&& self.bird.x + BIRD_WIDTH / 2 <= i32::MAX
        &&& self.bird.y + BIRD_HEIGHT / 2 <= i32::MAX
        &&& self.spec_flapped_bird().update_in_range()
        &&& self.spec_moved_bird().y + BIRD_HEIGHT <= i32::MAX
        &&& forall|i: int| 0 <= i < self.pipes@.len() ==> pipe_step_in_range(#[trigger] self.pipes@[i])
        &&& self.base.update_in_range()
        &&& self.spec_spawns() ==> self.score < u32::MAX
    }

    /// `next` is this game after one step in which a newly spawned pipe, if
    /// any, has its gap top at `gap_top`. A crashed game does not change.
    pub open spec fn spec_stepped(self, next: Game, gap_top: int) -> bool {
        if !self.alive {
            &&& next.bird == self.bird
            &&& next.base == self.base
            &&& next.pipes@ == self.pipes@
            &&& next.controller == self.controller
            &&& next.score == self.score
            &&& next.alive == self.alive
            &&& next.last_flap == self.last_flap
            &&& next.last_limits == self.last_limits
        } else {
            let bird = self.spec_moved_bird();
            let survivors = surviving_pipes(self.pipes@, self.bird.x as int);
            &&& next.bird == bird
            &&& next.base == self.base.spec_updated()
            &&& next.pipes@ == if self.spec_spawns() {
                survivors.push(Pipe::spec_with_gap_top(PIPE_SPAWN_X as int, gap_top))
            } else {
                survivors
            }
            &&& next.controller == self.controller
            &&& next.score == self.score + if self.spec_spawns() {
                1int
            } else {
                0int
            }
            &&& next.alive == !(any_collides(self.pipes@, bird) || hits_screen_edge(bird))
            &&& next.last_flap == self.spec_decision()
            &&& next.last_limits == self.spec_limits()
        }
    }

    /// A brand-new game: the bird at rest at its start position, the base at
    /// the ground, one pipe at the spawn x with a random gap, a two-step
    /// controller, no score.
    pub open spec fn is_fresh(self) -> bool {
        &&& self.bird.x == BIRD_X
        &&& self.bird.y == BIRD_START_Y
        &&& self.bird.vel == 0
        &&& self.bird.tilt == 0
        &&& self.bird.height == BIRD_START_Y
        &&& self.base == (Base { y: GROUND_Y, x1: 0, x2: BASE_WIDTH })
        &&& self.pipes@.len() == 1
        &&& GAP_TOP_MIN <= self.pipes@[0].gap_top < GAP_TOP_MAX
        &&& self.pipes@[0] == Pipe::spec_with_gap_top(PIPE_SPAWN_X as int, self.pipes@[0].gap_top as int)
        &&& self.controller.spec_horizon() == 2
        &&& self.score == 0
        &&& self.alive
        &&& !self.last_flap
        &&& self.last_limits == (GapLimits { lower: GROUND_Y, upper: 0 })
    }

    /// What every game reached by play satisfies: the bird stays at its x,
    /// there is always a pipe and the newest one is not yet cleared, every
    /// pipe is in play, the pipes are ordered by x, the base tiles abut, a running bird is on screen with
    /// a bounded velocity, and the score can still grow.
    pub open spec fn playable(self) -> bool {
        &&& self.bird.x == BIRD_X
        &&& self.pipes@.len() > 0
        &&& !self.pipes@.last().passed
        &&& forall|i: int| 0 <= i < self.pipes@.len() ==> pipe_in_play(#[trigger] self.pipes@[i], BIRD_X as int)
        &&& pipes_in_order(self.pipes@)
        &&& self.base.tiles_abut()
        &&& self.alive ==> {
            &&& 0 <= self.bird.y
            &&& self.bird.y + BIRD_HEIGHT <= GROUND_Y
            &&& -GROUND_Y <= self.bird.vel <= GROUND_Y
        }
        &&& self.score < u32::MAX
    }

    /// Start a fresh game.
    pub fn new() -> (r: Self)
        ensures
            r.is_fresh(),
            r.playable(),
    {
        let mut pipes: Vec<Pipe> = Vec::new();
        pipes.push(Pipe::new(PIPE_SPAWN_X));
        let r = Game {
            bird: Bird::new(BIRD_X, BIRD_START_Y),
            base: Base::new(GROUND_Y),
            pipes,
            controller: Controller::new(2),
            score: 0,
            alive: true,
            last_flap: false,
            last_limits: GapLimits::new(GROUND_Y, 0),
        };
        assert(r.pipes@.last() == r.pipes@[0]);
        r
    }

    /// Reset to a brand-new game in place.
    pub fn reset(&mut self)
        ensures
            final(self).is_fresh(),
            final(self).playable(),
    {
        *self = Game::new();
    }

    /// Advance one fixed timestep.
    ///
    /// Order of operations: query the controller, apply the flap, integrate
    /// the bird, then resolve pipes and scoring, the screen edges and the
    /// ground. A pipe spawned in this step draws its gap top at random.
    pub fn step(&mut self)
        requires
            old(self).alive ==> old(self).step_in_range(),
        ensures
            exists|gap_top: int|
                GAP_TOP_MIN <= gap_top < GAP_TOP_MAX && #[trigger] old(self).spec_stepped(
                    *final(self),
                    gap_top,
                ),
    {
        if !self.alive {
            assert(old(self).spec_stepped(*self, GAP_TOP_MIN as int));
            return;
        }
        let add_pipe = self.advance();
        if add_pipe {
            self.score = self.score + 1;
            let pipe = Pipe::new(PIPE_SPAWN_X);
            self.pipes.push(pipe);
            assert(old(self).spec_stepped(*self, pipe.gap_top as int));
        } else {
            assert(old(self).spec_stepped(*self, GAP_TOP_MIN as int));
        }
    }

    /// Advance one fixed timestep in which a newly spawned pipe, if any, has
    /// its gap top at `gap_top`.
    pub fn step_with_gap_top(&mut self, gap_top: i32)
        requires
            old(self).alive ==> old(self).step_in_range(),
            gap_top + GAP <= i32::MAX,
        ensures
            old(self).spec_stepped(*final(self), gap_top as int),
    {
        if !self.alive {
            return;
        }
        let add_pipe = self.advance();
        if add_pipe {
            self.score = self.score + 1;
            self.pipes.push(Pipe::with_gap_top(PIPE_SPAWN_X, gap_top));
        }
    }

    /// Everything a step does to a running game but spawning and scoring.
    fn advance(&mut self) -> (add_pipe: bool)
        requires
            old(self).alive,
            old(self).step_in_range(),
        ensures
            add_pipe == old(self).spec_spawns(),
            final(self).bird == old(self).spec_moved_bird(),
            final(self).base == old(self).base.spec_updated(),
            final(self).pipes@ == surviving_pipes(old(self).pipes@, old(self).bird.x as int),
            final(self).controller == old(self).controller,
            final(self).score == old(self).score,
            final(self).alive == !(any_collides(old(self).pipes@, old(self).spec_moved_bird())
                || hits_screen_edge(old(self).spec_moved_bird())),
            final(self).last_flap == old(self).spec_decision(),
            final(self).last_limits == old(self).spec_limits(),
    {
        // 1. The controller decides whether to flap, given the bird's state
        //    and the near edge of the pipe ahead.
        let (cx, cy, vy) = self.bird.physical_position();
        let front = pipe_in_front(&self.bird, self.pipes.as_slice());
        let (lower, upper) = front.controller_limits();
        let limits = GapLimits::new(lower, upper);
        self.last_limits = limits;

        let state = BirdState::new(cx, cy, vy);
        self.last_flap = self.controller.solve(state, limits);

        // 2. Apply the action and integrate the bird.
        if self.last_flap {
            self.bird.jump();
        }
        self.bird.update();

        // 3. Resolve pipes: collisions, clearing, scrolling, despawning.
        let ghost pipes = self.pipes@;
        let ghost bird_x = self.bird.x as int;
        let mut add_pipe = false;
        let mut kept: Vec<Pipe> = Vec::new();
        let n = self.pipes.len();
        for i in 0..n
            invariant
                n == pipes.len(),
                self.pipes@ == pipes,
                pipes == old(self).pipes@,
                bird_x == old(self).bird.x,
                self.bird == old(self).spec_moved_bird(),
                self.base == old(self).base,
                self.controller == old(self).controller,
                self.score == old(self).score,
                self.last_flap == old(self).spec_decision(),
                self.last_limits == old(self).spec_limits(),
                forall|j: int| 0 <= j < pipes.len() ==> pipe_step_in_range(#[trigger] pipes[j]),
                kept@ == surviving_pipes(pipes.take(i as int), bird_x),
                add_pipe == any_newly_passed(pipes.take(i as int), bird_x),
                self.alive == !any_collides(pipes.take(i as int), self.bird),
        {
            let ghost before = pipes.take(i as int);
            let ghost after = pipes.take(i + 1);
            assert(after.drop_last() =~= before);
            assert(after.last() == pipes[i as int]);
            let mut pipe = self.pipes[i];
            let collided = pipe.collides(&self.bird);
            if collided {
                self.alive = false;
            }
            // Count the pipe as cleared once its left edge passes the bird.
            if !pipe.passed && pipe.x < self.bird.x {
                pipe.passed = true;
                add_pipe = true;
            }
            let despawn = pipe.right() < 0;
            pipe.update();
            if !despawn {
                kept.push(pipe);
            }
            proof {
                assert(pipes[i as int] == after[i as int]);
                if any_newly_passed(after, bird_x) {
                    let j = choose|j: int| 0 <= j < after.len() && newly_passed(after[j], bird_x);
                    if j < i {
                        assert(before[j] == after[j]);
                    }
                }
                if any_newly_passed(before, bird_x) {
                    let j = choose|j: int| 0 <= j < before.len() && newly_passed(before[j], bird_x);
                    assert(before[j] == after[j]);
                }
                if any_collides(after, self.bird) {
                    let j = choose|j: int| 0 <= j < after.len() && after[j].spec_collides(self.bird);
                    if j < i {
                        assert(before[j] == after[j]);
                    }
                }
                if any_collides(before, self.bird) {
                    let j = choose|j: int| 0 <= j < before.len() && before[j].spec_collides(self.bird);
                    assert(before[j] == after[j]);
                }
            }
        }
        assert(pipes.take(n as int) =~= pipes);
        self.pipes = kept;

        // 4. Death by hitting the ground or the ceiling.
        let bottom = self.bird.bounds().bottom();
        if bottom > GROUND_Y || self.bird.y < 0 {
            self.alive = false;
        }

        // 5. Scroll the ground.
        self.base.update();
        add_pipe
    }
}

impl Default for Game {
    fn default() -> (r: Self)
        ensures
            r.is_fresh(),
            r.playable(),
    {
        Self::new()
    }
}

/// Every pipe kept by a step is still in play.
proof fn lemma_survivors_in_play(pipes: Seq<Pipe>, bird_x: int)
    requires
        forall|i: int| 0 <= i < pipes.len() ==> pipe_in_play(#[trigger] pipes[i], bird_x),
    ensures
        forall|j: int|
            0 <= j < surviving_pipes(pipes, bird_x).len() ==> pipe_in_play(
                #[trigger] surviving_pipes(pipes, bird_x)[j],
                bird_x,
            ),
    decreases pipes.len(),
{
    if pipes.len() > 0 {
        let rest = pipes.drop_last();
        assert forall|i: int| 0 <= i < rest.len() implies pipe_in_play(#[trigger] rest[i], bird_x) by {
            assert(rest[i] == pipes[i]);
        }
        lemma_survivors_in_play(rest, bird_x);
        let earlier = surviving_pipes(rest, bird_x);
        let last = pipes.last();
        assert(pipe_in_play(pipes[pipes.len() - 1], bird_x));
        if !pipe_despawns(last) {
            assert(pipe_in_play(scrolled_pipe(last, bird_x), bird_x));
            assert forall|j: int|
                0 <= j < surviving_pipes(pipes, bird_x).len() implies pipe_in_play(
                #[trigger] surviving_pipes(pipes, bird_x)[j],
                bird_x,
            ) by {
                if j < earlier.len() {
                    assert(surviving_pipes(pipes, bird_x)[j] == earlier[j]);
                }
            }
        }
    }
}

/// Every pipe kept by a step lies left of `bound - VELOCITY` when every pipe
/// before the step lay left of `bound`.
proof fn lemma_survivors_left_of(pipes: Seq<Pipe>, bird_x: int, bound: int)
    requires
        forall|i: int| 0 <= i < pipes.len() ==> pipe_in_play(#[trigger] pipes[i], bird_x),
        forall|i: int| 0 <= i < pipes.len() ==> (#[trigger] pipes[i]).x < bound,
    ensures
        forall|j: int|
            0 <= j < surviving_pipes(pipes, bird_x).len() ==> (#[trigger] surviving_pipes(
                pipes,
                bird_x,
            )[j]).x < bound - PIPE_VELOCITY,
    decreases pipes.len(),
{
    if pipes.len() > 0 {
        let rest = pipes.drop_last();
        assert forall|i: int| 0 <= i < rest.len() implies pipe_in_play(#[trigger] rest[i], bird_x)
            && rest[i].x < bound by {
            assert(rest[i] == pipes[i]);
        }
        lemma_survivors_left_of(rest, bird_x, bound);
        let earlier = surviving_pipes(rest, bird_x);
        assert(pipe_in_play(pipes[pipes.len() - 1], bird_x));
        assert(pipes[pipes.len() - 1].x < bound);
        assert forall|j: int|
            0 <= j < surviving_pipes(pipes, bird_x).len() implies (#[trigger] surviving_pipes(
            pipes,
            bird_x,
        )[j]).x < bound - PIPE_VELOCITY by {
            if j < earlier.len() {
                assert(surviving_pipes(pipes, bird_x)[j] == earlier[j]);
            }
        }
    }
}

/// A step keeps the pipes ordered by x.
proof fn lemma_survivors_in_order(pipes: Seq<Pipe>, bird_x: int)
    requires
        forall|i: int| 0 <= i < pipes.len() ==> pipe_in_play(#[trigger] pipes[i], bird_x),
        pipes_in_order(pipes),
    ensures
        pipes_in_order(surviving_pipes(pipes, bird_x)),
    decreases pipes.len(),
{
    if pipes.len() > 0 {
        let rest = pipes.drop_last();
        let last = pipes[pipes.len() - 1];
        assert forall|i: int| 0 <= i < rest.len() implies pipe_in_play(#[trigger] rest[i], bird_x)
            && rest[i].x < last.x by {
            assert(rest[i] == pipes[i]);
        }
        assert forall|i: int, j: int| 0 <= i < j < rest.len() implies #[trigger] rest[i].x
            < #[trigger] rest[j].x by {
            assert(rest[i] == pipes[i] && rest[j] == pipes[j]);
        }
        lemma_survivors_in_order(rest, bird_x);
        lemma_survivors_left_of(rest, bird_x, last.x as int);
        let earlier = surviving_pipes(rest, bird_x);
        let all = surviving_pipes(pipes, bird_x);
        assert(pipe_in_play(last, bird_x));
        assert forall|i: int, j: int| 0 <= i < j < all.len() implies #[trigger] all[i].x
            < #[trigger] all[j].x by {
            assert(all[i] == earlier[i]);
            if j < earlier.len() {
                assert(all[j] == earlier[j]);
            }
        }
    }
}

/// A crashed game is frozen: a step changes none of its fields.
pub proof fn lemma_crashed_game_is_frozen(g: Game, next: Game, gap_top: int)
    requires
        !g.alive,
        g.spec_stepped(next, gap_top),
    ensures
        next.bird == g.bird,
        next.base == g.base,
        next.pipes@ == g.pipes@,
        next.controller == g.controller,
        next.score == g.score,
        !next.alive,
        next.last_flap == g.last_flap,
        next.last_limits == g.last_limits,
{
}

/// How a running game's step ends: the bird survives exactly when its new
/// box (`x..x+40`, `y..y+30`) lies within the screen (`0 <= y`,
/// `y + 30 <= 730`) and overlaps neither the upper box (`0..gap_top`) nor
/// the lower box (`gap_bottom..730`) of any pipe present before the step,
/// cleared or not, in that pipe's column (`x..x+80`).
pub proof fn lemma_step_survival(g: Game, next: Game, gap_top: int)
    requires
        g.alive,
        g.step_in_range(),
        g.spec_stepped(next, gap_top),
    ensures
        next.alive <==> (0 <= next.bird.y && next.bird.y + 30 <= 730 && forall|i: int|
            0 <= i < g.pipes@.len() ==> !(next.bird.x < (#[trigger] g.pipes@[i]).x + 80
                && g.pipes@[i].x < next.bird.x + 40 && ((next.bird.y < g.pipes@[i].gap_top && 0
                < next.bird.y + 30) || (next.bird.y < 730 && g.pipes@[i].gap_bottom < next.bird.y
                + 30)))),
{
    let b = next.bird;
    let hits = |p: Pipe|
        b.x < p.x + 80 && p.x < b.x + 40 && ((b.y < p.gap_top && 0 < b.y + 30) || (b.y < 730
            && p.gap_bottom < b.y + 30));
    assert forall|i: int| 0 <= i < g.pipes@.len() implies (#[trigger] g.pipes@[i]).spec_collides(b)
        == hits(g.pipes@[i]) by {
        assert(pipe_step_in_range(g.pipes@[i]));
    }
    if any_collides(g.pipes@, b) {
        let i = choose|i: int| 0 <= i < g.pipes@.len() && (#[trigger] g.pipes@[i]).spec_collides(b);
        assert(hits(g.pipes@[i]));
    }
}

/// How a running game's step moves the bird: the controller is asked with
/// the bird's centre `(x + 20, y + 15)` and its current velocity, against
/// the gap of the first pipe while the bird is left of that pipe's right
/// edge (`x + 80`) and of the newest pipe otherwise; after a flap the bird
/// rises 20 and then falls at 18, otherwise it moves by its velocity and
/// gains 2; it keeps its x.
pub proof fn lemma_step_flight(g: Game, next: Game, gap_top: int)
    requires
        g.alive,
        g.step_in_range(),
        g.spec_stepped(next, gap_top),
    ensures
        next.last_limits == (if g.bird.x < g.pipes@[0].x + 80 {
            GapLimits { lower: g.pipes@[0].gap_bottom, upper: g.pipes@[0].gap_top }
        } else {
            GapLimits {
                lower: g.pipes@[g.pipes@.len() - 1].gap_bottom,
                upper: g.pipes@[g.pipes@.len() - 1].gap_top,
            }
        }),
        next.last_flap == flap_decision(
            BirdState { x: (g.bird.x + 20) as i32, y: (g.bird.y + 15) as i32, vy: g.bird.vel },
            next.last_limits,
            g.controller.spec_horizon(),
        ),
        next.bird.x == g.bird.x,
        next.bird.y == g.bird.y + (if next.last_flap {
            -20
        } else {
            g.bird.vel as int
        }),
        next.bird.vel == (if next.last_flap {
            -18
        } else {
            g.bird.vel + 2
        }),
{
}

/// How a running game's step scores and spawns: the score grows by one
/// exactly when some pipe not yet cleared has its left edge left of the
/// bird's x, and then a new uncleared pipe with the drawn gap top and a gap
/// of 200 appears at x 600 as the newest pipe.
pub proof fn lemma_step_scoring(g: Game, next: Game, gap_top: int)
    requires
        g.alive,
        g.step_in_range(),
        g.spec_stepped(next, gap_top),
        i32::MIN <= gap_top,
        gap_top + 200 <= i32::MAX,
    ensures
        next.score == g.score + (if exists|i: int|
            0 <= i < g.pipes@.len() && !(#[trigger] g.pipes@[i]).passed && g.pipes@[i].x
                < g.bird.x {
            1int
        } else {
            0int
        }),
        next.score == g.score + 1 ==> next.pipes@.len() > 0 && next.pipes@[next.pipes@.len() - 1]
            == (Pipe { x: 600, gap_top: gap_top as i32, gap_bottom: (gap_top + 200) as i32, passed: false }),
{
    if g.spec_spawns() {
        let i = choose|i: int| 0 <= i < g.pipes@.len() && newly_passed(#[trigger] g.pipes@[i], g.bird.x as int);
        assert(!g.pipes@[i].passed && g.pipes@[i].x < g.bird.x);
    }
    if exists|i: int| 0 <= i < g.pipes@.len() && !(#[trigger] g.pipes@[i]).passed && g.pipes@[i].x < g.bird.x {
        let i = choose|i: int| 0 <= i < g.pipes@.len() && !(#[trigger] g.pipes@[i]).passed && g.pipes@[i].x < g.bird.x;
        assert(newly_passed(g.pipes@[i], g.bird.x as int));
    }
}

/// Every pipe a step keeps comes from a pipe present before the step whose
/// right edge (`x + 80`) was not left of 0: it is that pipe moved 5 left,
/// with the same gap, and marked cleared if it was cleared or its left edge
/// was left of the bird's x. Conversely every such pipe is kept.
pub proof fn lemma_survivors_are_scrolled_pipes(pipes: Seq<Pipe>, bird_x: int)
    requires
        forall|i: int| 0 <= i < pipes.len() ==> pipe_step_in_range(#[trigger] pipes[i]),
    ensures
        forall|j: int|
            0 <= j < surviving_pipes(pipes, bird_x).len() ==> exists|i: int|
                0 <= i < pipes.len() && #[trigger] pipes[i].x + 80 >= 0 && #[trigger] surviving_pipes(
                    pipes,
                    bird_x,
                )[j] == (Pipe {
                    x: (pipes[i].x - 5) as i32,
                    gap_top: pipes[i].gap_top,
                    gap_bottom: pipes[i].gap_bottom,
                    passed: pipes[i].passed || pipes[i].x < bird_x,
                }),
        forall|i: int|
            0 <= i < pipes.len() && #[trigger] pipes[i].x + 80 >= 0 ==> surviving_pipes(
                pipes,
                bird_x,
            ).contains(
                Pipe {
                    x: (pipes[i].x - 5) as i32,
                    gap_top: pipes[i].gap_top,
                    gap_bottom: pipes[i].gap_bottom,
                    passed: pipes[i].passed || pipes[i].x < bird_x,
                },
            ),
    decreases pipes.len(),
{
    if pipes.len() > 0 {
        let rest = pipes.drop_last();
        let n = pipes.len() - 1;
        assert forall|i: int| 0 <= i < rest.len() implies pipe_step_in_range(#[trigger] rest[i]) by {
            assert(rest[i] == pipes[i]);
        }
        lemma_survivors_are_scrolled_pipes(rest, bird_x);
        let earlier = surviving_pipes(rest, bird_x);
        let all = surviving_pipes(pipes, bird_x);
        assert forall|j: int| 0 <= j < all.len() implies exists|i: int|
            0 <= i < pipes.len() && #[trigger] pipes[i].x + 80 >= 0 && #[trigger] all[j] == (Pipe {
                x: (pipes[i].x - 5) as i32,
                gap_top: pipes[i].gap_top,
                gap_bottom: pipes[i].gap_bottom,
                passed: pipes[i].passed || pipes[i].x < bird_x,
            }) by {
            if j < earlier.len() {
                assert(all[j] == earlier[j]);
                let i = choose|i: int|
                    0 <= i < rest.len() && #[trigger] rest[i].x + 80 >= 0 && #[trigger] earlier[j] == (Pipe {
                        x: (rest[i].x - 5) as i32,
                        gap_top: rest[i].gap_top,
                        gap_bottom: rest[i].gap_bottom,
                        passed: rest[i].passed || rest[i].x < bird_x,
                    });
                assert(rest[i] == pipes[i]);
            } else {
                assert(pipes[n].x + 80 >= 0);
            }
        }
        assert forall|i: int| 0 <= i < pipes.len() && #[trigger] pipes[i].x + 80 >= 0 implies all.contains(
            Pipe {
                x: (pipes[i].x - 5) as i32,
                gap_top: pipes[i].gap_top,
                gap_bottom: pipes[i].gap_bottom,
                passed: pipes[i].passed || pipes[i].x < bird_x,
            },
        ) by {
            let q = Pipe {
                x: (pipes[i].x - 5) as i32,
                gap_top: pipes[i].gap_top,
                gap_bottom: pipes[i].gap_bottom,
                passed: pipes[i].passed || pipes[i].x < bird_x,
            };
            if i < n {
                assert(rest[i] == pipes[i]);
                assert(rest[i].x + 80 >= 0);
                assert(earlier.contains(q));
                let k = choose|k: int| 0 <= k < earlier.len() && earlier[k] == q;
                assert(all[k] == q);
            } else {
                assert(all[all.len() - 1] == q);
            }
        }
    }
}

/// A running game reached by play can always take a step: there is a pipe
/// ahead and no arithmetic leaves 32 bits.
pub proof fn lemma_playable_step_in_range(g: Game)
    requires
        g.playable(),
        g.alive,
    ensures
        g.step_in_range(),
{
    lemma_scroll_keeps_tiles_abutting(g.base);
    assert forall|i: int| 0 <= i < g.pipes@.len() implies pipe_step_in_range(#[trigger] g.pipes@[i]) by {
        assert(pipe_in_play(g.pipes@[i], BIRD_X as int));
    }
}

/// A step keeps a game playable, whatever gap the spawned pipe draws: in
/// particular there is always at least one pipe, the pipes stay ordered by
/// x, and a running bird is on screen. (The score must have room to grow.)
pub proof fn lemma_step_keeps_playable(g: Game, next: Game, gap_top: int)
    requires
        g.playable(),
        g.score + 1 < u32::MAX,
        GAP_TOP_MIN <= gap_top < GAP_TOP_MAX,
        g.spec_stepped(next, gap_top),
    ensures
        next.playable(),
{
    if g.alive {
        lemma_playable_step_in_range(g);
        lemma_scroll_keeps_tiles_abutting(g.base);
        let bx = BIRD_X as int;
        let pipes = g.pipes@;
        let survivors = surviving_pipes(pipes, bx);
        lemma_survivors_in_play(pipes, bx);
        lemma_survivors_in_order(pipes, bx);
        assert forall|i: int| 0 <= i < pipes.len() implies (#[trigger] pipes[i]).x < PIPE_SPAWN_X + 1 by {
            assert(pipe_in_play(pipes[i], bx));
        }
        lemma_survivors_left_of(pipes, bx, PIPE_SPAWN_X + 1);
        let last = pipes.last();
        assert(pipe_in_play(pipes[pipes.len() - 1], bx));
        assert(!pipe_despawns(last));
        assert(pipes.drop_last().len() < pipes.len());
        assert(survivors == surviving_pipes(pipes.drop_last(), bx).push(scrolled_pipe(last, bx)));
        if g.spec_spawns() {
            let spawned = Pipe::spec_with_gap_top(PIPE_SPAWN_X as int, gap_top);
            assert forall|i: int| 0 <= i < next.pipes@.len() implies pipe_in_play(
                #[trigger] next.pipes@[i],
                bx,
            ) by {
                if i < survivors.len() {
                    assert(next.pipes@[i] == survivors[i]);
                }
            }
            assert forall|i: int, j: int| 0 <= i < j < next.pipes@.len() implies #[trigger] next.pipes@[i].x
                < #[trigger] next.pipes@[j].x by {
                assert(next.pipes@[i] == survivors[i]);
                if j < survivors.len() {
                    assert(next.pipes@[j] == survivors[j]);
                }
            }
        } else {
            assert(!newly_passed(pipes[pipes.len() - 1], bx));
        }
    } else {
        assert forall|i: int| 0 <= i < next.pipes@.len() implies pipe_in_play(
            #[trigger] next.pipes@[i],
            BIRD_X as int,
        ) by {
            assert(next.pipes@[i] == g.pipes@[i]);
        }
    }
}

} // verus!
