use flappy_mpc::base::Base;
use flappy_mpc::bird::Bird;
use flappy_mpc::controller::{BirdState, Controller, GapLimits};
use flappy_mpc::game::Game;
use flappy_mpc::pipe::Pipe;
use flappy_mpc::{pipe_in_front, BIRD_START_Y, BIRD_X, GROUND_Y, PIPE_SPAWN_X};

fn game_with(bird: Bird, pipes: Vec<Pipe>) -> Game {
    Game {
        bird,
        base: Base::new(GROUND_Y),
        pipes,
        controller: Controller::default(),
        score: 0,
        alive: true,
        last_flap: false,
        last_limits: GapLimits::new(GROUND_Y, 0),
    }
}

#[test]
fn new_game_is_fresh() {
    let g = Game::new();
    assert_eq!((g.bird.x, g.bird.y, g.bird.vel), (BIRD_X, BIRD_START_Y, 0));
    assert_eq!(g.pipes.len(), 1);
    assert_eq!(g.pipes[0].x, PIPE_SPAWN_X);
    assert!(g.pipes[0].gap_top >= 50 && g.pipes[0].gap_top < 450);
    assert_eq!(g.controller.horizon(), 2);
    assert_eq!(g.score, 0);
    assert!(g.alive);
    assert!(!g.last_flap);
    assert_eq!(g.last_limits, GapLimits::new(GROUND_Y, 0));
    let d = Game::default();
    assert_eq!(d.score, 0);
    assert_eq!(d.pipes.len(), 1);
}

#[test]
fn reset_restores_a_fresh_game() {
    let mut g = game_with(Bird::new(BIRD_X, 10), vec![Pipe::with_gap_top(100, 200)]);
    g.score = 7;
    g.alive = false;
    g.reset();
    assert!(g.alive);
    assert_eq!(g.score, 0);
    assert_eq!((g.bird.x, g.bird.y), (BIRD_X, BIRD_START_Y));
    assert_eq!(g.pipes.len(), 1);
    assert_eq!(g.pipes[0].x, PIPE_SPAWN_X);
}

#[test]
fn pipe_in_front_picks_first_then_newest() {
    let bird = Bird::new(BIRD_X, 300);
    let pipes = vec![Pipe::with_gap_top(200, 100), Pipe::with_gap_top(600, 300)];
    // Bird x 230 is left of the first pipe's right edge 280.
    assert_eq!(pipe_in_front(&bird, &pipes).x, 200);
    let pipes = vec![Pipe::with_gap_top(150, 100), Pipe::with_gap_top(600, 300)];
    // Right edge 230 is not right of the bird: target the newest pipe.
    assert_eq!(pipe_in_front(&bird, &pipes).x, 600);
}

#[test]
fn a_crashed_game_does_not_change() {
    let mut g = game_with(Bird::new(BIRD_X, 300), vec![Pipe::with_gap_top(400, 250)]);
    g.alive = false;
    let before = (g.bird, g.base, g.pipes.clone(), g.score, g.last_flap, g.last_limits);
    g.step();
    assert_eq!((g.bird, g.base, g.pipes.clone(), g.score, g.last_flap, g.last_limits), before);
    assert!(!g.alive);
}

#[test]
fn step_follows_the_controller() {
    let mut g = game_with(Bird::new(BIRD_X, 300), vec![Pipe::with_gap_top(400, 250)]);
    let limits = GapLimits::new(450, 250);
    let flap = Controller::default().solve(BirdState::new(250, 315, 0), limits);
    g.step_with_gap_top(100);
    assert_eq!(g.last_limits, limits);
    assert_eq!(g.last_flap, flap);
    if flap {
        assert_eq!((g.bird.y, g.bird.vel), (280, -18));
    } else {
        assert_eq!((g.bird.y, g.bird.vel), (300, 2));
    }
    assert_eq!(g.pipes, vec![Pipe::with_gap_top(395, 250)]);
    assert_eq!((g.base.x1, g.base.x2), (-5, 695));
    assert_eq!(g.score, 0);
    assert!(g.alive);
}

#[test]
fn clearing_a_pipe_scores_and_spawns() {
    // The pipe's left edge 229 is already left of the bird at 230; the bird
    // sits inside the gap 250..450.
    let mut g = game_with(Bird::new(BIRD_X, 300), vec![Pipe::with_gap_top(229, 250)]);
    g.step_with_gap_top(123);
    assert_eq!(g.score, 1);
    assert_eq!(g.pipes.len(), 2);
    assert_eq!(g.pipes[0].x, 224);
    assert!(g.pipes[0].passed);
    assert_eq!(g.pipes[1], Pipe::with_gap_top(PIPE_SPAWN_X, 123));
    assert!(g.alive);
    // A cleared pipe is not counted again.
    g.step_with_gap_top(77);
    assert_eq!(g.score, 1);
    assert_eq!(g.pipes.len(), 2);
}

#[test]
fn pipes_off_screen_are_removed() {
    let mut old = Pipe::with_gap_top(-81, 250);
    old.passed = true;
    let mut g = game_with(Bird::new(BIRD_X, 300), vec![old, Pipe::with_gap_top(400, 250)]);
    g.step_with_gap_top(100);
    assert_eq!(g.pipes, vec![Pipe::with_gap_top(395, 250)]);
    // A pipe whose right edge is exactly 0 is kept one more step.
    let mut edge = Pipe::with_gap_top(-80, 250);
    edge.passed = true;
    let mut g = game_with(Bird::new(BIRD_X, 300), vec![edge, Pipe::with_gap_top(400, 250)]);
    g.step_with_gap_top(100);
    assert_eq!(g.pipes.len(), 2);
    assert_eq!(g.pipes[0].x, -85);
}

#[test]
fn hitting_a_pipe_ends_the_game() {
    // The bird is level with the upper pipe body.
    let mut g = game_with(Bird::new(BIRD_X, 100), vec![Pipe::with_gap_top(220, 300)]);
    g.step_with_gap_top(100);
    assert!(!g.alive);
}

#[test]
fn leaving_the_screen_ends_the_game() {
    // Rising fast near the top: with or without a flap the bird leaves the
    // screen.
    let mut bird = Bird::new(BIRD_X, 10);
    bird.vel = -30;
    let mut g = game_with(bird, vec![Pipe::with_gap_top(600, 250)]);
    g.step_with_gap_top(100);
    assert!(g.bird.y < 0);
    assert!(!g.alive);
}

#[test]
fn random_step_spawns_in_range() {
    let mut g = game_with(Bird::new(BIRD_X, 300), vec![Pipe::with_gap_top(229, 250)]);
    g.step();
    assert_eq!(g.score, 1);
    assert_eq!(g.pipes.len(), 2);
    let spawned = g.pipes[1];
    assert_eq!(spawned.x, PIPE_SPAWN_X);
    assert!(spawned.gap_top >= 50 && spawned.gap_top < 450);
    assert_eq!(spawned.gap_bottom, spawned.gap_top + 200);
    assert!(!spawned.passed);
}

#[test]
fn long_play_keeps_the_game_playable() {
    for _ in 0..5 {
        let mut g = Game::new();
        for _ in 0..3000 {
            let score = g.score;
            g.step();
            assert!(!g.pipes.is_empty());
            assert!(!g.pipes.last().unwrap().passed);
            assert!(g.score == score || g.score == score + 1);
            assert_eq!(g.bird.x, BIRD_X);
            for w in g.pipes.windows(2) {
                assert!(w[0].x < w[1].x);
            }
            for p in &g.pipes {
                assert!(p.x >= -85 && p.x <= PIPE_SPAWN_X);
                assert_eq!(p.gap_bottom, p.gap_top + 200);
                assert!(p.passed || p.x >= BIRD_X - 5);
            }
            if g.alive {
                assert!(g.bird.y >= 0 && g.bird.y + 30 <= GROUND_Y);
            }
        }
    }
}
