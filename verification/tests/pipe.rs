use flappy_mpc::bird::Bird;
use flappy_mpc::geometry::Aabb;
use flappy_mpc::pipe::{Pipe, GAP};

#[test]
fn bird_in_gap_does_not_collide() {
    let pipe = Pipe::with_gap_top(200, 250); // gap 250..450
    let mut bird = Bird::new(210, 340); // centred in the gap, overlapping x
    bird.vel = 0;
    assert!(!pipe.collides(&bird));
}

#[test]
fn bird_into_top_pipe_collides() {
    let pipe = Pipe::with_gap_top(200, 250);
    let bird = Bird::new(210, 100); // up in the top pipe
    assert!(pipe.collides(&bird));
}

#[test]
fn limits_are_bottom_then_top() {
    let pipe = Pipe::with_gap_top(200, 250);
    let (lower, upper) = pipe.controller_limits();
    assert_eq!((lower, upper), (450, 250));
    assert!(lower > upper, "screen-y grows downward");
}

#[test]
fn bird_below_gap_collides_with_bottom_pipe() {
    let pipe = Pipe::with_gap_top(200, 250);
    // Box 430..460 reaches below the gap bottom at 450.
    let bird = Bird::new(210, 430);
    assert!(pipe.collides(&bird));
    // Box 420..450 touches the gap bottom exactly: no collision.
    let bird = Bird::new(210, 420);
    assert!(!pipe.collides(&bird));
}

#[test]
fn bird_beside_pipe_does_not_collide() {
    let pipe = Pipe::with_gap_top(200, 250);
    // Bird box 160..200 ends where the pipe starts.
    let bird = Bird::new(160, 100);
    assert!(!pipe.collides(&bird));
    // One pixel further right overlaps.
    let bird = Bird::new(161, 100);
    assert!(pipe.collides(&bird));
}

#[test]
fn pipe_bounds_and_scroll() {
    let mut pipe = Pipe::with_gap_top(600, 100);
    assert_eq!(pipe.gap_bottom, 100 + GAP);
    assert!(!pipe.passed);
    assert_eq!(pipe.right(), 680);
    assert_eq!(pipe.top_bounds(), Aabb::new(600, 0, 80, 100));
    assert_eq!(pipe.bottom_bounds(), Aabb::new(600, 300, 80, 430));
    pipe.update();
    assert_eq!(pipe.x, 595);
}

#[test]
fn random_pipe_gap_is_in_range() {
    for _ in 0..200 {
        let pipe = Pipe::new(600);
        assert!(pipe.gap_top >= 50 && pipe.gap_top < 450);
        assert_eq!(pipe.gap_bottom, pipe.gap_top + GAP);
        assert_eq!(pipe.x, 600);
        assert!(!pipe.passed);
    }
}
