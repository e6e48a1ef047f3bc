use flappy_mpc::controller::{BirdState, Controller, GapLimits};

// A representative gap: top edge at y=250, bottom edge at y=450 (gap = 200).
fn gap() -> GapLimits {
    GapLimits::new(450, 250)
}

#[test]
fn default_horizon_matches_original() {
    assert_eq!(Controller::default().horizon(), 2);
}

#[test]
fn flaps_when_falling_below_the_gap() {
    // Bird well below the gap and still falling: it must climb, so flap.
    let c = Controller::default();
    let state = BirdState::new(230, 600, 10);
    assert!(c.solve(state, gap()), "should flap to recover from below");
}

#[test]
fn does_not_flap_when_rising_above_the_gap() {
    // Bird above the gap and already rising: flapping would overshoot.
    let c = Controller::default();
    let state = BirdState::new(230, 200, -5);
    assert!(!c.solve(state, gap()), "should glide down into the gap");
}

#[test]
fn plan_reports_full_sequence_of_horizon_length() {
    let c = Controller::new(2);
    let plan = c.plan(BirdState::new(230, 350, 0), gap());
    assert_eq!(plan.sequence.len(), 2);
    assert!(plan.cost < i128::MAX);
}

#[test]
fn comfortable_in_gap_centre_prefers_to_glide() {
    // Sitting in the middle of the gap with no velocity: there is room to
    // fall toward the (lower) target, so the cheapest action is to glide.
    let c = Controller::default();
    let centre = (250 + 450) / 2;
    let state = BirdState::new(230, centre, 0);
    assert!(!c.solve(state, gap()));
}

#[test]
fn plan_cost_is_the_exact_objective() {
    // target = 430; y: 350 -> 350 -> 352 when gliding twice.
    // cost = 80² + 80² + 78² = 18884; flapping first ends at 330 (22800),
    // and flapping only on the last step ties with gliding.
    let c = Controller::new(2);
    let plan = c.plan(BirdState::new(230, 350, 0), gap());
    assert_eq!(plan.cost, 18884);
    assert_eq!(plan.sequence, vec![false, false]);
    assert!(!plan.flap_now);
    assert!(plan.feasible);
}

#[test]
fn slack_and_bound_penalties_enter_the_cost() {
    // Falling fast from y=700 with vy=40 and a one-step horizon:
    // glide: y1 = 740 (10 below the screen, 310 below the gap bound 430);
    // flap: same y1 = 740, because the flap only changes the next velocity.
    let c = Controller::new(1);
    let plan = c.plan(BirdState::new(230, 700, 40), gap());
    let expected: i128 = 270 * 270 + 310 * 310 + 100_000_000 * 310 + 10_000_000_000_000 * 10;
    assert_eq!(plan.cost, expected);
    assert!(!plan.feasible);
    assert!(!plan.flap_now);
}

/// Cost and on-screen flag of the sequence encoded by `mask`, evaluated
/// directly.
fn direct_cost(y0: i128, vy0: i128, limits: GapLimits, n: u32, mask: u32) -> (i128, bool) {
    let target = limits.lower as i128 - 20;
    let (top, bottom) = (limits.upper as i128 + 20, limits.lower as i128 - 20);
    let (mut y, mut vy) = (y0, vy0);
    let mut cost = (y - target) * (y - target);
    let mut on_screen = true;
    for i in 0..n {
        y += vy;
        vy = if (mask >> i) & 1 == 1 { -20 } else { vy + 2 };
        cost += (y - target) * (y - target);
        cost += 100_000_000 * ((y - bottom).max(0) + (top - y).max(0));
        if y < 0 {
            on_screen = false;
            cost += 10_000_000_000_000 * -y;
        } else if y > 730 {
            on_screen = false;
            cost += 10_000_000_000_000 * (y - 730);
        }
    }
    (cost, on_screen)
}

/// The first best mask: on-screen sequences first, then the cheapest.
fn direct_best(y0: i128, vy0: i128, limits: GapLimits, n: u32) -> (u32, i128, bool) {
    let (mut best_mask, (mut best_cost, mut best_on)) = (0u32, direct_cost(y0, vy0, limits, n, 0));
    for mask in 1u32..(1 << n) {
        let (cost, on) = direct_cost(y0, vy0, limits, n, mask);
        if (on && !best_on) || (on == best_on && cost < best_cost) {
            best_mask = mask;
            best_cost = cost;
            best_on = on;
        }
    }
    (best_mask, best_cost, best_on)
}

#[test]
fn plan_is_no_worse_than_any_sequence() {
    // Compare against a direct evaluation of all 2^3 sequences.
    let state = BirdState::new(230, 500, 6);
    let limits = GapLimits::new(420, 220);
    let plan = Controller::new(3).plan(state, limits);
    let (best_mask, best, on_screen) = direct_best(500, 6, limits, 3);
    assert_eq!(plan.cost, best);
    assert_eq!(plan.feasible, on_screen);
    let expected: Vec<bool> = (0..3).map(|i| (best_mask >> i) & 1 == 1).collect();
    assert_eq!(plan.sequence, expected);
    assert_eq!(plan.flap_now, expected[0]);
    for mask in 0u32..8 {
        let (cost, on) = direct_cost(500, 6, limits, 3, mask);
        assert!(plan.feasible || !on);
        if on == plan.feasible {
            assert!(plan.cost <= cost);
        }
    }
}

#[test]
fn on_screen_plan_wins_over_cheaper_off_screen_plan() {
    // The gap bounds lie far off screen, so slacks outweigh the bound
    // penalty: gliding first and flapping second is cheaper but leaves the
    // screen (y 731), while flapping first stays on it.
    let state = BirdState::new(0, -497, 613);
    let limits = GapLimits::new(i32::MAX, 450495);
    let plan = Controller::new(6).plan(state, limits);
    assert!(plan.feasible);
    let (best_mask, best, on_screen) = direct_best(-497, 613, limits, 6);
    assert!(on_screen);
    assert_eq!(plan.cost, best);
    let expected: Vec<bool> = (0..6).map(|i| (best_mask >> i) & 1 == 1).collect();
    assert_eq!(plan.sequence, expected);
    // The cheapest sequence overall is off screen.
    let cheapest = (0u32..64).map(|m| direct_cost(-497, 613, limits, 6, m).0).min().unwrap();
    assert!(cheapest < plan.cost);
}

#[test]
fn last_flap_does_not_change_the_plan_cost() {
    // With a one-step horizon the only decision is also the last one, so
    // both candidates tie and the plan glides.
    for (y, vy) in [(300, 0), (600, 10), (100, -15), (740, 30)] {
        let limits = gap();
        let (glide, glide_on) = direct_cost(y, vy, limits, 1, 0);
        let (flap, flap_on) = direct_cost(y, vy, limits, 1, 1);
        assert_eq!((glide, glide_on), (flap, flap_on));
        let plan = Controller::new(1).plan(BirdState::new(230, y as i32, vy as i32), limits);
        assert!(!plan.flap_now);
        assert_eq!(plan.cost, glide);
    }
}

#[test]
fn ties_resolve_toward_gliding() {
    // Inside the gap, on the target line and at rest with a one-step
    // horizon: the single predicted position is the same with or without a
    // flap, so the costs tie and the controller glides.
    let plan = Controller::new(1).plan(BirdState::new(230, 430, 0), gap());
    assert_eq!(plan.sequence, vec![false]);
    assert_eq!(plan.cost, 0);
}

#[test]
fn staying_on_screen_beats_leaving_it() {
    // Falling from y=700 at 25 px/step over two steps: gliding ends at 752
    // (off screen), flapping first ends at 705.
    let plan = Controller::new(2).plan(BirdState::new(230, 700, 25), gap());
    assert!(plan.feasible);
    assert!(plan.flap_now);
}
