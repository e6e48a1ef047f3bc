use flappy_mpc::base::{Base, WIDTH as BASE_WIDTH};
use flappy_mpc::bird::{animation_frame, Bird, GRAVITY, JUMP_VELOCITY};
use flappy_mpc::geometry::Aabb;
use flappy_mpc::SCREEN_WIDTH;

#[test]
fn aabb_edges_and_overlap() {
    let a = Aabb::new(0, 0, 10, 20);
    assert_eq!(a.right(), 10);
    assert_eq!(a.bottom(), 20);
    let b = Aabb::new(5, 5, 10, 10);
    assert!(a.intersects(&b));
    assert!(b.intersects(&a));
}

#[test]
fn touching_boxes_do_not_overlap() {
    let a = Aabb::new(0, 0, 10, 10);
    let right = Aabb::new(10, 0, 10, 10);
    let below = Aabb::new(0, 10, 10, 10);
    assert!(!a.intersects(&right));
    assert!(!right.intersects(&a));
    assert!(!a.intersects(&below));
    assert!(!below.intersects(&a));
}

#[test]
fn huge_boxes_compare_without_overflow() {
    let a = Aabb::new(i32::MAX - 1, 0, i32::MAX, 10);
    let b = Aabb::new(i32::MAX, 0, 1, 10);
    assert!(a.intersects(&b));
}

#[test]
fn bird_spawns_at_rest() {
    let bird = Bird::new(230, 350);
    assert_eq!((bird.x, bird.y, bird.vel, bird.tilt, bird.height), (230, 350, 0, 0, 350));
    assert_eq!(bird.physical_position(), (250, 365, 0));
    assert_eq!(bird.bounds(), Aabb::new(230, 350, 40, 30));
}

#[test]
fn bird_falls_and_flaps() {
    let mut bird = Bird::new(230, 350);
    bird.update();
    assert_eq!((bird.y, bird.vel), (350, GRAVITY));
    bird.update();
    assert_eq!((bird.y, bird.vel), (352, 2 * GRAVITY));
    bird.jump();
    assert_eq!((bird.vel, bird.height), (JUMP_VELOCITY, 352));
    bird.update();
    assert_eq!((bird.y, bird.vel), (332, JUMP_VELOCITY + GRAVITY));
}

#[test]
fn tilt_rises_after_flap_then_dives() {
    let mut bird = Bird::new(230, 350);
    bird.jump();
    bird.update();
    assert_eq!(bird.tilt, 25);
    // Fall far below the flap height: the nose drops 20 degrees per step
    // until it passes -90, then holds.
    bird.y = 500;
    bird.vel = 0;
    let mut tilts = Vec::new();
    for _ in 0..8 {
        bird.update();
        tilts.push(bird.tilt);
    }
    assert_eq!(tilts, vec![5, -15, -35, -55, -75, -95, -95, -95]);
    assert!(tilts.iter().all(|&t| -110 < t && t <= 25));
}

#[test]
fn animation_cycles_and_holds_when_diving() {
    let frames: Vec<usize> = (0..8).map(|p| animation_frame(0, p)).collect();
    assert_eq!(frames, vec![0, 1, 2, 1, 0, 1, 2, 1]);
    assert_eq!(animation_frame(-80, 0), 1);
    assert_eq!(animation_frame(-95, 2), 1);
    assert_eq!(animation_frame(-79, 2), 2);
}

#[test]
fn base_scrolls_and_wraps_without_gaps() {
    let mut base = Base::new(730);
    assert_eq!((base.y, base.x1, base.x2), (730, 0, BASE_WIDTH));
    base.update();
    assert_eq!((base.x1, base.x2), (-5, 695));
    for _ in 0..1000 {
        base.update();
        let left = base.x1.min(base.x2);
        assert_eq!((base.x1 - base.x2).abs(), BASE_WIDTH);
        assert!(left <= 0 && left >= -BASE_WIDTH);
        assert!(left + 2 * BASE_WIDTH >= SCREEN_WIDTH);
        assert_eq!(base.y, 730);
    }
}

#[test]
fn base_first_wrap() {
    let mut base = Base::new(730);
    for _ in 0..141 {
        base.update();
    }
    // The first tile passed -700 and jumped behind the second one.
    assert_eq!((base.x1, base.x2), (695, -5));
}
