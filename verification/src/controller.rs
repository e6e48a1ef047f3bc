//! Model Predictive Control (MPC) policy that decides, each step, whether the
//! bird should flap.
//!
//! The optimisation problem is a mixed-integer quadratic program over a
//! horizon of `N` steps:
//!
//! ```text
//! minimise  Σ_i (y_i − (lower − margin))²  +  1e8 · Σ ε  (+ 1e13 · bound violation)
//! s.t.      y_{i+1}  = y_i + vy_i
//!           vy_{i+1} = −20 if u_i (flap) else vy_i + 2
//!           0 ≤ y_{i+1} ≤ 730
//!           y_{i+1} ≤ lower − margin + ε,  y_{i+1} ≥ upper + margin − ε
//! ```
//!
//! For a fixed flap sequence `u` every state is determined by the dynamics
//! and each slack is minimised in closed form by `max(0, violation)`, so the
//! problem is solved exactly by evaluating all `2^N` sequences. The screen
//! bounds are hard constraints: a sequence that keeps the bird on screen is
//! preferred to one that does not, and among sequences of the same kind the
//! first cheapest is kept. All arithmetic is exact integer arithmetic.

use vstd::prelude::*;
use vstd::arithmetic::power2::{pow2, lemma_pow2_pos, lemma_pow2_unfold};
use vstd::arithmetic::div_mod::{lemma_div_denominator, lemma_fundamental_div_mod};
use vstd::bits::{lemma_u32_shl_is_mul, lemma_u32_shr_is_div, lemma_u32_pow2_no_overflow};

verus! {

/// Velocity imparted by a single flap (screen-y grows downward, so it's negative).
pub const JUMP_VELOCITY: i32 = -20;
/// Per-step gravitational acceleration applied when not flapping.
pub const GRAVITY: i32 = 2;
/// Safety buffer (px) the bird keeps from each pipe edge.
pub const ROBUST_MARGIN: i32 = 20;
/// Lowest admissible y (top of the screen).
pub const Y_MIN: i32 = 0;
/// Highest admissible y (top of the base).
pub const Y_MAX: i32 = 730;
/// Weight on the slack variables of the soft gap constraints.
pub const SLACK_PENALTY: i128 = 100_000_000;
/// Weight on leaving the hard screen bounds; it dominates any slack term so
/// in-bounds trajectories are preferred.
pub const BOUND_PENALTY: i128 = 10_000_000_000_000;

/// Physical state of the bird as seen by the controller: the centre of its
/// sprite and its velocity, in screen pixels with y growing downward.
#[derive(Clone, Copy, Debug, PartialEq, Eq, Structural)]
pub struct BirdState {
    /// Horizontal position; it does not enter the decision.
    pub x: i32,
    /// Vertical position of the bird's centre.
    pub y: i32,
    /// Vertical velocity.
    pub vy: i32,
}

impl BirdState {
    /// Convenience constructor.
    pub fn new(x: i32, y: i32, vy: i32) -> (r: Self)
        ensures
            r == (BirdState { x, y, vy }),
    {
        BirdState { x, y, vy }
    }
}

/// Vertical extent of the gap in the pipe directly ahead of the bird.
///
/// Because screen-y grows downward, `lower` (the bottom edge of the gap) has
/// the larger value and `upper` (the top edge) the smaller one.
#[derive(Clone, Copy, Debug, PartialEq, Eq, Structural)]
pub struct GapLimits {
    /// Bottom edge of the gap (larger y).
    pub lower: i32,
    /// Top edge of the gap (smaller y).
    pub upper: i32,
}

impl GapLimits {
    /// Convenience constructor.
    pub fn new(lower: i32, upper: i32) -> (r: Self)
        ensures
            r == (GapLimits { lower, upper }),
    {
        GapLimits { lower, upper }
    }
}

/// The outcome of an MPC optimisation over the full horizon.
#[derive(Clone, Debug, PartialEq)]
pub struct Plan {
    /// Whether to flap on the first (immediately applied) step.
    pub flap_now: bool,
    /// Optimal objective value of the chosen plan.
    pub cost: i128,
    /// The full optimal flap sequence over the horizon.
    pub sequence: Vec<bool>,
    /// Whether the chosen plan stays within the hard screen bounds.
    pub feasible: bool,
}

/// `d²`.
pub open spec fn square(d: int) -> int {
    d * d
}

/// `max(0, v)`.
pub open spec fn positive_part(v: int) -> int {
    if v > 0 {
        v
    } else {
        0
    }
}

/// The height the objective drives the bird toward: just above the bottom
/// edge of the gap.
pub open spec fn tracking_target(limits: GapLimits) -> int {
    limits.lower - ROBUST_MARGIN
}

/// The bird must stay at or below this y (softly).
pub open spec fn gap_top_bound(limits: GapLimits) -> int {
    limits.upper + ROBUST_MARGIN
}

/// The bird must stay at or above this y (softly).
pub open spec fn gap_bottom_bound(limits: GapLimits) -> int {
    limits.lower - ROBUST_MARGIN
}

/// The two slacks a predicted position needs: how far it lies below the
/// bottom bound plus how far it lies above the top bound.
pub open spec fn gap_slack(y: int, limits: GapLimits) -> int {
    positive_part(y - gap_bottom_bound(limits)) + positive_part(gap_top_bound(limits) - y)
}

/// How far a predicted position lies outside the screen `[Y_MIN, Y_MAX]`.
pub open spec fn bound_violation(y: int) -> int {
    if y < Y_MIN {
        Y_MIN - y
    } else if y > Y_MAX {
        y - Y_MAX
    } else {
        0
    }
}

/// Velocity after one step with the given flap decision.
pub open spec fn next_vy(vy: int, flap: bool) -> int {
    if flap {
        JUMP_VELOCITY as int
    } else {
        vy + GRAVITY
    }
}

/// The optimisation objective's term for one predicted position: tracking
/// plus the weighted gap slacks.
pub open spec fn position_objective(y: int, limits: GapLimits) -> int {
    square(y - tracking_target(limits)) + SLACK_PENALTY * gap_slack(y, limits)
}

/// Cost contributed by one predicted position: its objective term plus the
/// penalty for leaving the screen.
pub open spec fn position_cost(y: int, limits: GapLimits) -> int {
    position_objective(y, limits) + BOUND_PENALTY * bound_violation(y)
}

/// Objective of the positions predicted from `(y, vy)` under `seq` (the
/// start position excluded).
pub open spec fn rollout_objective(y: int, vy: int, limits: GapLimits, seq: Seq<bool>) -> int
    decreases seq.len(),
{
    if seq.len() == 0 {
        0
    } else {
        position_objective(y + vy, limits) + rollout_objective(
            y + vy,
            next_vy(vy, seq[0]),
            limits,
            seq.drop_first(),
        )
    }
}

/// Cost of the positions predicted from `(y, vy)` under the flap sequence `seq`
/// (the start position excluded).
pub open spec fn rollout_cost(y: int, vy: int, limits: GapLimits, seq: Seq<bool>) -> int
    decreases seq.len(),
{
    if seq.len() == 0 {
        0
    } else {
        position_cost(y + vy, limits) + rollout_cost(
            y + vy,
            next_vy(vy, seq[0]),
            limits,
            seq.drop_first(),
        )
    }
}

/// Whether every position predicted from `(y, vy)` under `seq` is on screen.
pub open spec fn rollout_in_bounds(y: int, vy: int, seq: Seq<bool>) -> bool
    decreases seq.len(),
{
    seq.len() == 0 || {
        &&& Y_MIN <= y + vy <= Y_MAX
        &&& rollout_in_bounds(y + vy, next_vy(vy, seq[0]), seq.drop_first())
    }
}

/// The objective value of the flap sequence `seq` from `state`: the tracking
/// term of the start position plus the cost of every predicted position.
pub open spec fn sequence_cost(state: BirdState, limits: GapLimits, seq: Seq<bool>) -> int {
    square(state.y - tracking_target(limits)) + rollout_cost(state.y as int, state.vy as int, limits, seq)
}

/// Whether the flap sequence `seq` keeps the bird within the screen.
pub open spec fn sequence_feasible(state: BirdState, seq: Seq<bool>) -> bool {
    rollout_in_bounds(state.y as int, state.vy as int, seq)
}

/// The value of the optimisation objective for `seq`: squared distance of
/// every position (start included) to the target plus `1e8` times the gap
/// slacks. The screen bounds are hard constraints of the problem, so this
/// objective carries no bound penalty.
pub open spec fn sequence_objective(state: BirdState, limits: GapLimits, seq: Seq<bool>) -> int {
    square(state.y - tracking_target(limits)) + rollout_objective(
        state.y as int,
        state.vy as int,
        limits,
        seq,
    )
}

/// Whether sequence `a` ranks before sequence `b`: a sequence that keeps the
/// bird on screen ranks before one that does not, and among sequences of the
/// same kind the cheaper one ranks first.
pub open spec fn ranks_before(
    state: BirdState,
    limits: GapLimits,
    a: Seq<bool>,
    b: Seq<bool>,
) -> bool {
    let a_on = sequence_feasible(state, a);
    let b_on = sequence_feasible(state, b);
    (a_on && !b_on) || (a_on == b_on && sequence_cost(state, limits, a) < sequence_cost(
        state,
        limits,
        b,
    ))
}

/// The flap sequence of length `n` encoded by `mask`: step `i` flaps when
/// bit `i` of `mask` is set.
pub open spec fn mask_sequence(mask: nat, n: nat) -> Seq<bool> {
    Seq::new(n, |i: int| (mask / pow2(i as nat)) % 2 == 1)
}

/// Whether the sequence encoded by `a` ranks before the one encoded by `b`.
pub open spec fn mask_ranks_before(state: BirdState, limits: GapLimits, n: nat, a: nat, b: nat) -> bool {
    ranks_before(state, limits, mask_sequence(a, n), mask_sequence(b, n))
}

/// The first best mask among `0..k`, scanning upward and replacing the
/// current choice only by a mask that ranks strictly before it.
pub open spec fn best_mask_upto(state: BirdState, limits: GapLimits, n: nat, k: nat) -> nat
    decreases k,
{
    if k <= 1 {
        0
    } else {
        let prev = best_mask_upto(state, limits, n, (k - 1) as nat);
        if mask_ranks_before(state, limits, n, (k - 1) as nat, prev) {
            (k - 1) as nat
        } else {
            prev
        }
    }
}

/// The mask of the plan chosen over horizon `n`.
pub open spec fn best_mask(state: BirdState, limits: GapLimits, n: nat) -> nat {
    best_mask_upto(state, limits, n, pow2(n))
}

/// The flap sequence chosen over horizon `n`.
pub open spec fn best_sequence(state: BirdState, limits: GapLimits, n: nat) -> Seq<bool> {
    mask_sequence(best_mask(state, limits, n), n)
}

/// Whether the controller flaps now: the first action of the chosen plan.
pub open spec fn flap_decision(state: BirdState, limits: GapLimits, n: nat) -> bool {
    best_sequence(state, limits, n)[0]
}

/// The sequence of `n` steps that never flaps.
pub open spec fn never_flap(n: nat) -> Seq<bool> {
    Seq::new(n, |i: int| false)
}

/// The mask that encodes a flap sequence (step `i` is bit `i`).
pub open spec fn sequence_mask(seq: Seq<bool>) -> nat
    decreases seq.len(),
{
    if seq.len() == 0 {
        0
    } else {
        (if seq[0] {
            1nat
        } else {
            0nat
        }) + 2 * sequence_mask(seq.drop_first())
    }
}

/// Every flap sequence of length `n` is encoded by some mask below `2^n`:
/// enumerating the masks enumerates all sequences.
pub proof fn lemma_every_sequence_is_a_mask(seq: Seq<bool>)
    ensures
        sequence_mask(seq) < pow2(seq.len()),
        mask_sequence(sequence_mask(seq), seq.len()) == seq,
    decreases seq.len(),
{
    let n = seq.len();
    if n == 0 {
        assert(pow2(0) == 1) by {
            lemma_pow2_pos(0);
            vstd::arithmetic::power2::lemma2_to64();
        }
        assert(mask_sequence(0, 0) =~= seq);
    } else {
        let rest = seq.drop_first();
        lemma_every_sequence_is_a_mask(rest);
        let e = sequence_mask(rest);
        let b: nat = if seq[0] {
            1
        } else {
            0
        };
        let m = sequence_mask(seq);
        assert(m == b + 2 * e);
        lemma_pow2_unfold(n);
        assert(pow2(0) == 1) by {
            vstd::arithmetic::power2::lemma2_to64();
        }
        assert(m / 2 == e && m % 2 == b) by {
            lemma_fundamental_div_mod(m as int, 2);
        }
        assert forall|i: int| 0 <= i < n implies #[trigger] mask_sequence(m, n)[i] == seq[i] by {
            if i == 0 {
                assert(m / pow2(0) == m);
            } else {
                lemma_pow2_unfold(i as nat);
                lemma_pow2_pos((i - 1) as nat);
                lemma_div_denominator(m as int, 2, pow2((i - 1) as nat) as int);
                assert(m / pow2(i as nat) == e / pow2((i - 1) as nat));
                assert(mask_sequence(e, (n - 1) as nat)[i - 1] == rest[i - 1]);
            }
        }
        assert(mask_sequence(m, n) =~= seq);
    }
}

/// The prediction model, spelled out for the first step of a non-empty flap
/// sequence from `(y, vy)`: the bird moves to `y1 = y + vy`; the velocity
/// becomes −20 after a flap and `vy + 2` otherwise; the trajectory is on
/// screen only if `0 <= y1 <= 730` and the rest of it is; and `y1` costs
/// its squared distance to `lower − 20`, plus `1e8` times how far it lies
/// below `lower − 20` or above `upper + 20`, plus `1e13` times how far it
/// lies above 0 or below 730.
pub proof fn lemma_prediction_step(y: int, vy: int, limits: GapLimits, seq: Seq<bool>)
    requires
        seq.len() >= 1,
    ensures
        rollout_in_bounds(y, vy, seq) == (0 <= y + vy && y + vy <= 730 && rollout_in_bounds(
            y + vy,
            if seq[0] {
                -20
            } else {
                vy + 2
            },
            seq.drop_first(),
        )),
        rollout_cost(y, vy, limits, seq) == (y + vy - (limits.lower - 20)) * (y + vy - (limits.lower
            - 20)) + 100_000_000 * ((if y + vy > limits.lower - 20 {
            y + vy - (limits.lower - 20)
        } else {
            0
        }) + (if limits.upper + 20 > y + vy {
            limits.upper + 20 - (y + vy)
        } else {
            0
        })) + 10_000_000_000_000 * (if y + vy < 0 {
            -(y + vy)
        } else if y + vy > 730 {
            y + vy - 730
        } else {
            0
        }) + rollout_cost(
            y + vy,
            if seq[0] {
                -20
            } else {
                vy + 2
            },
            limits,
            seq.drop_first(),
        ),
{
}

/// An empty prediction costs nothing and stays on screen; a sequence's cost
/// is the squared distance of the start position to `lower − 20` plus the
/// cost of its prediction, and it is feasible exactly when its prediction
/// stays on screen.
pub proof fn lemma_sequence_cost_from_start(state: BirdState, limits: GapLimits, seq: Seq<bool>)
    ensures
        rollout_cost(state.y as int, state.vy as int, limits, Seq::<bool>::empty()) == 0,
        rollout_in_bounds(state.y as int, state.vy as int, Seq::<bool>::empty()),
        sequence_cost(state, limits, seq) == (state.y - (limits.lower - 20)) * (state.y - (
        limits.lower - 20)) + rollout_cost(state.y as int, state.vy as int, limits, seq),
        sequence_feasible(state, seq) == rollout_in_bounds(state.y as int, state.vy as int, seq),
{
}

/// Every term of the cost is non-negative.
proof fn lemma_rollout_cost_nonnegative(y: int, vy: int, limits: GapLimits, seq: Seq<bool>)
    ensures
        rollout_cost(y, vy, limits, seq) >= 0,
    decreases seq.len(),
{
    if seq.len() > 0 {
        let d = y + vy - tracking_target(limits);
        assert(d * d >= 0) by (nonlinear_arith);
        lemma_rollout_cost_nonnegative(y + vy, next_vy(vy, seq[0]), limits, seq.drop_first());
    }
}

/// A first predicted position above the screen (`y + vy < 0`) or below it
/// (`y + vy > 730`) makes every non-empty sequence infeasible and costs at
/// least `1e13` per pixel outside.
pub proof fn lemma_first_step_off_screen(state: BirdState, limits: GapLimits, seq: Seq<bool>)
    requires
        seq.len() >= 1,
        state.y + state.vy < 0 || state.y + state.vy > 730,
    ensures
        !sequence_feasible(state, seq),
        state.y + state.vy < 0 ==> sequence_cost(state, limits, seq) >= 10_000_000_000_000 * (0 - (
        state.y + state.vy)),
        state.y + state.vy > 730 ==> sequence_cost(state, limits, seq) >= 10_000_000_000_000 * (
        state.y + state.vy - 730),
{
    let y1 = state.y + state.vy;
    let d0 = state.y - tracking_target(limits);
    let d1 = y1 - tracking_target(limits);
    assert(d0 * d0 >= 0 && d1 * d1 >= 0) by (nonlinear_arith);
    lemma_rollout_cost_nonnegative(y1, next_vy(state.vy as int, seq[0]), limits, seq.drop_first());
}

/// The mask `best_mask_upto(k)` is below `k`, no mask below `k` ranks
/// before it, and it ranks before every mask that precedes it.
pub proof fn lemma_best_mask_upto_is_first_optimal(
    state: BirdState,
    limits: GapLimits,
    n: nat,
    k: nat,
)
    requires
        k >= 1,
    ensures
        best_mask_upto(state, limits, n, k) < k,
        forall|j: nat|
            j < k ==> !#[trigger] mask_ranks_before(
                state,
                limits,
                n,
                j,
                best_mask_upto(state, limits, n, k),
            ),
        forall|j: nat|
            j < best_mask_upto(state, limits, n, k) ==> #[trigger] mask_ranks_before(
                state,
                limits,
                n,
                best_mask_upto(state, limits, n, k),
                j,
            ),
    decreases k,
{
    if k > 1 {
        lemma_best_mask_upto_is_first_optimal(state, limits, n, (k - 1) as nat);
        let prev = best_mask_upto(state, limits, n, (k - 1) as nat);
        let m = best_mask_upto(state, limits, n, k);
        let last = (k - 1) as nat;
        assert forall|j: nat| j < k implies !#[trigger] mask_ranks_before(state, limits, n, j, m) by {
            if j < last {
                assert(!mask_ranks_before(state, limits, n, j, prev));
            }
        }
        assert forall|j: nat| j < m implies #[trigger] mask_ranks_before(state, limits, n, m, j) by {
            if m == last {
                assert(!mask_ranks_before(state, limits, n, j, prev));
            } else {
                assert(mask_ranks_before(state, limits, n, prev, j));
            }
        }
    }
}

/// On an on-screen trajectory the cost is the objective: no bound penalty.
pub proof fn lemma_on_screen_cost_is_objective(y: int, vy: int, limits: GapLimits, seq: Seq<bool>)
    requires
        rollout_in_bounds(y, vy, seq),
    ensures
        rollout_cost(y, vy, limits, seq) == rollout_objective(y, vy, limits, seq),
    decreases seq.len(),
{
    if seq.len() > 0 {
        lemma_on_screen_cost_is_objective(y + vy, next_vy(vy, seq[0]), limits, seq.drop_first());
    }
}

/// The chosen plan is optimal: no flap sequence of the horizon's length
/// ranks before it, and every sequence whose mask comes earlier in the
/// enumeration ranks after it.
pub proof fn lemma_best_sequence_is_optimal(state: BirdState, limits: GapLimits, n: nat)
    ensures
        best_mask(state, limits, n) < pow2(n),
        best_sequence(state, limits, n).len() == n,
        forall|seq: Seq<bool>|
            seq.len() == n ==> !#[trigger] ranks_before(
                state,
                limits,
                seq,
                best_sequence(state, limits, n),
            ),
        forall|j: nat|
            j < best_mask(state, limits, n) ==> #[trigger] mask_ranks_before(
                state,
                limits,
                n,
                best_mask(state, limits, n),
                j,
            ),
{
    lemma_pow2_pos(n);
    lemma_best_mask_upto_is_first_optimal(state, limits, n, pow2(n));
    assert forall|seq: Seq<bool>| seq.len() == n implies !#[trigger] ranks_before(
        state,
        limits,
        seq,
        best_sequence(state, limits, n),
    ) by {
        lemma_every_sequence_is_a_mask(seq);
        assert(!mask_ranks_before(state, limits, n, sequence_mask(seq), best_mask(state, limits, n)));
    }
}

/// The chosen plan solves the problem with hard screen bounds whenever that
/// problem is feasible: if some flap sequence of the horizon's length keeps
/// the bird on screen, the chosen plan does too, and no such sequence has a
/// lower objective (or a lower cost).
pub proof fn lemma_on_screen_plan_wins(state: BirdState, limits: GapLimits, n: nat, seq: Seq<bool>)
    requires
        seq.len() == n,
        sequence_feasible(state, seq),
    ensures
        sequence_feasible(state, best_sequence(state, limits, n)),
        sequence_cost(state, limits, best_sequence(state, limits, n)) <= sequence_cost(
            state,
            limits,
            seq,
        ),
        sequence_objective(state, limits, best_sequence(state, limits, n)) <= sequence_objective(
            state,
            limits,
            seq,
        ),
{
    lemma_best_sequence_is_optimal(state, limits, n);
    let best = best_sequence(state, limits, n);
    assert(!ranks_before(state, limits, seq, best));
    lemma_on_screen_cost_is_objective(state.y as int, state.vy as int, limits, seq);
    lemma_on_screen_cost_is_objective(state.y as int, state.vy as int, limits, best);
}

/// When no flap sequence keeps the bird on screen, the chosen plan has the
/// lowest cost of all sequences of the horizon's length.
pub proof fn lemma_off_screen_plan_is_cheapest(state: BirdState, limits: GapLimits, n: nat, seq: Seq<bool>)
    requires
        seq.len() == n,
        !sequence_feasible(state, best_sequence(state, limits, n)),
    ensures
        !sequence_feasible(state, seq),
        sequence_cost(state, limits, best_sequence(state, limits, n)) <= sequence_cost(
            state,
            limits,
            seq,
        ),
{
    lemma_best_sequence_is_optimal(state, limits, n);
    assert(!ranks_before(state, limits, seq, best_sequence(state, limits, n)));
}

/// Ties resolve toward gliding: when no flap sequence ranks before never
/// flapping, the chosen plan never flaps, so the bird does not flap now.
pub proof fn lemma_ties_prefer_gliding(state: BirdState, limits: GapLimits, n: nat)
    requires
        n > 0,
        forall|seq: Seq<bool>|
            seq.len() == n ==> !#[trigger] ranks_before(
                state,
                limits,
                seq,
                never_flap(n),
            ),
    ensures
        best_sequence(state, limits, n) == never_flap(n),
        !flap_decision(state, limits, n),
{
    lemma_best_sequence_is_optimal(state, limits, n);
    let never = never_flap(n);
    assert forall|i: int| 0 <= i < n implies #[trigger] mask_sequence(0, n)[i] == never[i] by {
        lemma_pow2_pos(i as nat);
    }
    assert(mask_sequence(0, n) =~= never);
    let m = best_mask(state, limits, n);
    if m != 0 {
        assert(mask_ranks_before(state, limits, n, m, 0));
        assert(!ranks_before(state, limits, best_sequence(state, limits, n), never));
    }
}

/// Decoding a mask below `2^n` into a flap sequence and encoding it again
/// gives the mask back.
pub proof fn lemma_mask_roundtrip(m: nat, n: nat)
    requires
        m < pow2(n),
    ensures
        sequence_mask(mask_sequence(m, n)) == m,
    decreases n,
{
    vstd::arithmetic::power2::lemma2_to64();
    if n == 0 {
        assert(mask_sequence(m, 0) =~= Seq::<bool>::empty());
    } else {
        let s = mask_sequence(m, n);
        let h = m / 2;
        lemma_pow2_unfold(n);
        assert(m == 2 * h + m % 2) by {
            lemma_fundamental_div_mod(m as int, 2);
        }
        assert(h < pow2((n - 1) as nat));
        assert forall|i: int| 0 <= i < n - 1 implies #[trigger] s.drop_first()[i] == mask_sequence(
            h,
            (n - 1) as nat,
        )[i] by {
            lemma_pow2_unfold((i + 1) as nat);
            lemma_pow2_pos(i as nat);
            lemma_div_denominator(m as int, 2, pow2(i as nat) as int);
        }
        assert(s.drop_first() =~= mask_sequence(h, (n - 1) as nat));
        lemma_mask_roundtrip(h, (n - 1) as nat);
        assert(pow2(0) == 1);
        assert(m / pow2(0) == m);
        assert(s[0] == (m % 2 == 1));
    }
}

/// Among sequences of the horizon's length that tie with the chosen plan
/// (same on-screen flag, same cost), the chosen plan comes first in the
/// enumeration order: its mask, with bit `i` set when step `i` flaps, is
/// the smallest.
pub proof fn lemma_ties_break_to_smallest_mask(
    state: BirdState,
    limits: GapLimits,
    n: nat,
    seq: Seq<bool>,
)
    requires
        seq.len() == n,
        sequence_feasible(state, seq) == sequence_feasible(state, best_sequence(state, limits, n)),
        sequence_cost(state, limits, seq) == sequence_cost(state, limits, best_sequence(state, limits, n)),
    ensures
        sequence_mask(best_sequence(state, limits, n)) <= sequence_mask(seq),
{
    lemma_best_sequence_is_optimal(state, limits, n);
    lemma_every_sequence_is_a_mask(seq);
    let m = best_mask(state, limits, n);
    lemma_mask_roundtrip(m, n);
    let j = sequence_mask(seq);
    if j < m {
        assert(mask_ranks_before(state, limits, n, m, j));
    }
}

/// When never flapping stays on screen whenever any sequence does, and costs
/// no more than any sequence with the same on-screen flag, the controller
/// chooses never to flap.
pub proof fn lemma_cheapest_glide_is_chosen(state: BirdState, limits: GapLimits, n: nat)
    requires
        n > 0,
        forall|seq: Seq<bool>|
            seq.len() == n && #[trigger] sequence_feasible(state, seq) ==> sequence_feasible(
                state,
                never_flap(n),
            ),
        forall|seq: Seq<bool>|
            seq.len() == n && sequence_feasible(state, seq) == sequence_feasible(state, never_flap(n))
                ==> sequence_cost(state, limits, never_flap(n)) <= #[trigger] sequence_cost(
                state,
                limits,
                seq,
            ),
    ensures
        best_sequence(state, limits, n) == never_flap(n),
        !flap_decision(state, limits, n),
{
    assert forall|seq: Seq<bool>| seq.len() == n implies !#[trigger] ranks_before(
        state,
        limits,
        seq,
        never_flap(n),
    ) by {
        if sequence_feasible(state, seq) {
            assert(sequence_feasible(state, never_flap(n)));
        }
        if sequence_feasible(state, seq) == sequence_feasible(state, never_flap(n)) {
            assert(sequence_cost(state, limits, never_flap(n)) <= sequence_cost(state, limits, seq));
        }
    }
    lemma_ties_prefer_gliding(state, limits, n);
}

/// The last flap decision of a sequence only sets a velocity that no later
/// position uses, so it changes neither the trajectory's cost, nor its
/// objective, nor whether it stays on screen.
pub proof fn lemma_last_flap_is_free(y: int, vy: int, limits: GapLimits, a: Seq<bool>, b: Seq<bool>)
    requires
        a.len() == b.len(),
        a.len() >= 1,
        forall|i: int| 0 <= i < a.len() - 1 ==> a[i] == b[i],
    ensures
        rollout_cost(y, vy, limits, a) == rollout_cost(y, vy, limits, b),
        rollout_objective(y, vy, limits, a) == rollout_objective(y, vy, limits, b),
        rollout_in_bounds(y, vy, a) == rollout_in_bounds(y, vy, b),
    decreases a.len(),
{
    if a.len() > 1 {
        assert(a[0] == b[0]);
        let (ra, rb) = (a.drop_first(), b.drop_first());
        assert forall|i: int| 0 <= i < ra.len() - 1 implies ra[i] == rb[i] by {
            assert(a[i + 1] == b[i + 1]);
        }
        lemma_last_flap_is_free(y + vy, next_vy(vy, a[0]), limits, ra, rb);
    } else {
        assert(a.drop_first().len() == 0 && b.drop_first().len() == 0);
        assert(rollout_cost(y + vy, next_vy(vy, a[0]), limits, a.drop_first()) == 0);
        assert(rollout_cost(y + vy, next_vy(vy, b[0]), limits, b.drop_first()) == 0);
        assert(rollout_objective(y + vy, next_vy(vy, a[0]), limits, a.drop_first()) == 0);
        assert(rollout_objective(y + vy, next_vy(vy, b[0]), limits, b.drop_first()) == 0);
        assert(rollout_in_bounds(y + vy, next_vy(vy, a[0]), a.drop_first()));
        assert(rollout_in_bounds(y + vy, next_vy(vy, b[0]), b.drop_first()));
    }
}

/// Flipping the last flap decision of a sequence changes neither its cost,
/// nor its objective, nor whether it keeps the bird on screen.
pub proof fn lemma_last_flap_does_not_matter(
    state: BirdState,
    limits: GapLimits,
    seq: Seq<bool>,
    flap: bool,
)
    requires
        seq.len() >= 1,
    ensures
        sequence_cost(state, limits, seq.update(seq.len() - 1, flap)) == sequence_cost(
            state,
            limits,
            seq,
        ),
        sequence_objective(state, limits, seq.update(seq.len() - 1, flap)) == sequence_objective(
            state,
            limits,
            seq,
        ),
        sequence_feasible(state, seq.update(seq.len() - 1, flap)) == sequence_feasible(state, seq),
{
    lemma_last_flap_is_free(
        state.y as int,
        state.vy as int,
        limits,
        seq.update(seq.len() - 1, flap),
        seq,
    );
}

/// A receding-horizon controller that decides whether the bird should flap.
#[derive(Clone, Copy, Debug)]
pub struct Controller {
    horizon: usize,
}

impl Controller {
    /// The horizon is positive and small enough to enumerate `2^N` masks in
    /// 32 bits.
    #[verifier::type_invariant]
    spec fn horizon_in_range(self) -> bool {
        0 < self.horizon < 32
    }

    /// The prediction horizon `N`.
    pub closed spec fn spec_horizon(self) -> nat {
        self.horizon as nat
    }

    /// Create a controller with the given prediction `horizon` (`N`), which
    /// must be positive and below 32 (enumeration is exponential in it).
    pub fn new(horizon: usize) -> (r: Self)
        requires
            0 < horizon < 32,
        ensures
            r.spec_horizon() == horizon,
    {
        Controller { horizon }
    }

    /// The prediction horizon `N`.
    pub fn horizon(&self) -> (r: usize)
        ensures
            r == self.spec_horizon(),
            0 < r < 32,
    {
        proof {
            use_type_invariant(self);
        }
        self.horizon
    }

    /// Decide whether to flap *this* step: the first action of the optimal
    /// plan (receding horizon).
    pub fn solve(&self, state: BirdState, limits: GapLimits) -> (r: bool)
        ensures
            r == flap_decision(state, limits, self.spec_horizon()),
            r == best_sequence(state, limits, self.spec_horizon())[0],
    {
        self.plan(state, limits).flap_now
    }

    /// Compute the full optimal plan.
    pub fn plan(&self, state: BirdState, limits: GapLimits) -> (r: Plan)
        ensures
            r.sequence@ == best_sequence(state, limits, self.spec_horizon()),
            r.sequence@.len() == self.spec_horizon(),
            r.cost == sequence_cost(state, limits, r.sequence@),
            r.feasible == sequence_feasible(state, r.sequence@),
            r.flap_now == r.sequence@[0],
            forall|seq: Seq<bool>|
                seq.len() == self.spec_horizon() ==> !#[trigger] ranks_before(
                    state,
                    limits,
                    seq,
                    r.sequence@,
                ),
            forall|seq: Seq<bool>|
                seq.len() == self.spec_horizon() && #[trigger] sequence_feasible(state, seq) ==> {
                    &&& r.feasible
                    &&& r.cost <= sequence_cost(state, limits, seq)
                    &&& sequence_objective(state, limits, r.sequence@) <= sequence_objective(
                        state,
                        limits,
                        seq,
                    )
                },
            !r.feasible ==> forall|seq: Seq<bool>|
                seq.len() == self.spec_horizon() ==> r.cost <= #[trigger] sequence_cost(
                    state,
                    limits,
                    seq,
                ),
    {
        proof {
            use_type_invariant(self);
        }
        let n = self.horizon;
        let ghost nn = n as nat;
        proof {
            lemma_u32_pow2_no_overflow(nn);
            lemma_u32_shl_is_mul(1u32, n as u32);
        }
        let count: u32 = 1u32 << (n as u32);
        assert(count == pow2(nn));

        let first = sequence_for_mask(0, n);
        let (first_cost, first_feasible) = self.evaluate(state, limits, &first);
        let mut best = Plan {
            flap_now: first[0],
            cost: first_cost,
            sequence: first,
            feasible: first_feasible,
        };

        // Masks in increasing order; bit `i` of `mask` is the flap at step `i`.
        // A plan that stays on screen beats one that does not; among plans
        // of the same kind strict `<` keeps the first-found optimum, and mask
        // 0 (never flap) comes first, so ties resolve toward not flapping.
        let mut mask: u32 = 1;
        while mask < count
            invariant
                1 <= mask <= count,
                count == pow2(nn),
                nn == self.spec_horizon(),
                0 < n < 32,
                n == nn,
                best.sequence@ == mask_sequence(best_mask_upto(state, limits, nn, mask as nat), nn),
                best.cost == sequence_cost(state, limits, best.sequence@),
                best.feasible == sequence_feasible(state, best.sequence@),
                best.flap_now == best.sequence@[0],
            decreases count - mask,
        {
            let sequence = sequence_for_mask(mask, n);
            let (cost, feasible) = self.evaluate(state, limits, &sequence);
            if (feasible && !best.feasible) || (feasible == best.feasible && cost < best.cost) {
                best = Plan { flap_now: sequence[0], cost, sequence, feasible };
            }
            mask = mask + 1;
        }
        proof {
            lemma_best_sequence_is_optimal(state, limits, nn);
            assert forall|seq: Seq<bool>|
                seq.len() == nn && #[trigger] sequence_feasible(state, seq) implies {
                &&& best.feasible
                &&& best.cost <= sequence_cost(state, limits, seq)
                &&& sequence_objective(state, limits, best.sequence@) <= sequence_objective(
                    state,
                    limits,
                    seq,
                )
            } by {
                lemma_on_screen_plan_wins(state, limits, nn, seq);
            }
            assert forall|seq: Seq<bool>| !best.feasible && seq.len() == nn implies best.cost
                <= #[trigger] sequence_cost(state, limits, seq) by {
                lemma_off_screen_plan_is_cheapest(state, limits, nn, seq);
            }
        }
        best
    }

    /// Evaluate one candidate flap sequence, returning `(cost, feasible)`.
    ///
    /// `feasible` is `true` when the predicted trajectory stays within the
    /// hard screen bounds. Out-of-bounds trajectories are not discarded (that
    /// could leave no plan); they rank after every in-bounds one and among
    /// themselves by a cost that adds [`BOUND_PENALTY`] per pixel outside.
    fn evaluate(&self, state: BirdState, limits: GapLimits, sequence: &Vec<bool>) -> (r: (i128, bool))
        requires
            sequence@.len() < 32,
        ensures
            r.0 == sequence_cost(state, limits, sequence@),
            r.1 == sequence_feasible(state, sequence@),
    {
        let target: i64 = limits.lower as i64 - ROBUST_MARGIN as i64;
        let gap_top_bound: i64 = limits.upper as i64 + ROBUST_MARGIN as i64;
        let gap_bottom_bound: i64 = limits.lower as i64 - ROBUST_MARGIN as i64;

        let mut y: i64 = state.y as i64;
        let mut vy: i64 = state.vy as i64;
        let mut feasible = true;

        let d0: i128 = y as i128 - target as i128;
        proof {
            lemma_square_bound(d0 as int);
        }
        let mut tracking: i128 = d0 * d0;
        let mut slack_sum: i128 = 0;
        let mut bound_violations: i128 = 0;

        let len = sequence.len();
        let ghost seq = sequence@;
        let ghost total = sequence_cost(state, limits, seq);
        assert(seq.skip(0) =~= seq);
        for i in 0..len
            invariant
                len == seq.len(),
                seq == sequence@,
                len < 32,
                target == tracking_target(limits),
                gap_top_bound == self::gap_top_bound(limits),
                gap_bottom_bound == self::gap_bottom_bound(limits),
                -0x8000_0000 - 2 * i <= vy <= 0x8000_0000 + 2 * i,
                -(i + 1) * 0x1_0000_0000 <= y <= (i + 1) * 0x1_0000_0000,
                0 <= tracking <= (i + 1) * 0x1_0000_0000_0000_0000_000,
                0 <= slack_sum <= i * 0x100_0000_0000,
                0 <= bound_violations <= i * 0x40_0000_0000,
                total == sequence_cost(state, limits, seq),
                tracking + SLACK_PENALTY * slack_sum + BOUND_PENALTY * bound_violations
                    + rollout_cost(y as int, vy as int, limits, seq.skip(i as int)) == total,
                sequence_feasible(state, seq) == (feasible && rollout_in_bounds(
                    y as int,
                    vy as int,
                    seq.skip(i as int),
                )),
        {
            let flap = sequence[i];
            let ghost rest = seq.skip(i as int);
            assert(rest[0] == flap);
            assert(rest.drop_first() =~= seq.skip(i + 1));

            // y-dynamics use the current velocity, then vy is updated.
            y = y + vy;
            vy = if flap {
                JUMP_VELOCITY as i64
            } else {
                vy + GRAVITY as i64
            };

            // Hard screen bounds.
            let mut violation: i128 = 0;
            if y < Y_MIN as i64 {
                feasible = false;
                violation = Y_MIN as i128 - y as i128;
            } else if y > Y_MAX as i64 {
                feasible = false;
                violation = y as i128 - Y_MAX as i128;
            }
            bound_violations = bound_violations + violation;

            // Soft gap constraints: slacks take exactly the constraint violation.
            let below: i128 = y as i128 - gap_bottom_bound as i128;
            let above: i128 = gap_top_bound as i128 - y as i128;
            slack_sum = slack_sum + if below > 0 { below } else { 0 };
            slack_sum = slack_sum + if above > 0 { above } else { 0 };

            // Tracking term for this predicted position.
            let d: i128 = y as i128 - target as i128;
            proof {
                lemma_square_bound(d as int);
            }
            tracking = tracking + d * d;
        }
        assert(seq.skip(len as int) =~= Seq::<bool>::empty());
        proof {
            lemma_final_cost_fits(tracking as int, slack_sum as int, bound_violations as int);
        }
        let cost = tracking + SLACK_PENALTY * slack_sum + BOUND_PENALTY * bound_violations;
        (cost, feasible)
    }
}

/// A difference of at most `2^38` in size has a square of at most `2^76`.
proof fn lemma_square_bound(d: int)
    requires
        -0x40_0000_0000 <= d <= 0x40_0000_0000,
    ensures
        0 <= d * d <= 0x1000_0000_0000_0000_0000,
{
    assert(0 <= d * d <= 0x40_0000_0000 * 0x40_0000_0000) by (nonlinear_arith)
        requires
            -0x40_0000_0000 <= d <= 0x40_0000_0000,
    ;
}

/// The weighted sum of the three accumulated terms fits in 128 bits.
proof fn lemma_final_cost_fits(tracking: int, slack: int, bound: int)
    requires
        0 <= tracking <= 32 * 0x1_0000_0000_0000_0000_000,
        0 <= slack <= 32 * 0x100_0000_0000,
        0 <= bound <= 32 * 0x40_0000_0000,
    ensures
        0 <= tracking + SLACK_PENALTY * slack + BOUND_PENALTY * bound <= i128::MAX,
        0 <= SLACK_PENALTY * slack <= i128::MAX,
        0 <= BOUND_PENALTY * bound <= i128::MAX,
{
}

/// The flap sequence of length `n` encoded by `mask`.
fn sequence_for_mask(mask: u32, n: usize) -> (r: Vec<bool>)
    requires
        n < 32,
    ensures
        r@ == mask_sequence(mask as nat, n as nat),
{
    let mut sequence: Vec<bool> = Vec::new();
    for i in 0..n
        invariant
            n < 32,
            sequence@ =~= mask_sequence(mask as nat, n as nat).take(i as int),
    {
        proof {
            lemma_u32_shr_is_div(mask, i as u32);
        }
        let shifted: u32 = mask >> (i as u32);
        assert((shifted & 1 == 1) == (shifted % 2 == 1)) by (bit_vector);
        sequence.push(shifted & 1 == 1);
    }
    sequence
}

impl Default for Controller {
    /// The two-step horizon the policy was designed with.
    fn default() -> (r: Self)
        ensures
            r.spec_horizon() == 2,
    {
        Self::new(2)
    }
}

} // verus!
