use physics_puzzle::body::{Body, Wall, MAX_MASS};
use physics_puzzle::fixed::Fixed;
use physics_puzzle::scenario::{Scenario, ScenarioError};
use physics_puzzle::vec2::Vec2;

fn v(x: i64, y: i64) -> Vec2 {
    Vec2::new(Fixed::from_int(x), Fixed::from_int(y))
}

fn ball(x: i64, y: i64, radius: i64) -> Body {
    Body::new(v(x, y), v(0, 0), Fixed::from_int(radius), Fixed::one(), Fixed::one()).unwrap()
}

#[test]
fn new_body_rests_in_its_initial_state() {
    let b = Body::new(v(1, 2), v(3, 4), Fixed::from_int(5), Fixed::from_int(6), Fixed::from_ratio(1, 2))
        .unwrap();
    assert_eq!(b.pos, v(1, 2));
    assert_eq!(b.vel, v(3, 4));
    assert_eq!(b.acc, v(0, 0));
    assert_eq!(b.initial_pos, v(1, 2));
    assert_eq!(b.initial_vel, v(3, 4));
    assert_eq!(b.radius, Fixed::from_int(5));
    assert_eq!(b.mass, Fixed::from_int(6));
    assert_eq!(b.restitution, Fixed::from_ratio(1, 2));
    assert!(!b.is_goal && !b.is_player && !b.fixed);
    assert!(b.is_valid());
}

#[test]
fn body_needs_positive_radius() {
    assert!(Body::new(v(0, 0), v(0, 0), Fixed::zero(), Fixed::one(), Fixed::one()).is_none());
    assert!(Body::new(v(0, 0), v(0, 0), Fixed::from_int(-1), Fixed::one(), Fixed::one()).is_none());
    assert!(Body::new(v(0, 0), v(0, 0), Fixed::from_raw(1), Fixed::one(), Fixed::one()).is_some());
}

#[test]
fn body_needs_positive_bounded_mass() {
    let r = Fixed::one();
    assert!(Body::new(v(0, 0), v(0, 0), r, Fixed::zero(), Fixed::one()).is_none());
    assert!(Body::new(v(0, 0), v(0, 0), r, Fixed::from_int(-2), Fixed::one()).is_none());
    assert!(Body::new(v(0, 0), v(0, 0), r, Fixed::from_raw(MAX_MASS), Fixed::one()).is_some());
    assert!(Body::new(v(0, 0), v(0, 0), r, Fixed::from_raw(MAX_MASS + 1), Fixed::one()).is_none());
}

#[test]
fn body_needs_restitution_between_zero_and_one() {
    let r = Fixed::one();
    assert!(Body::new(v(0, 0), v(0, 0), r, r, Fixed::zero()).is_some());
    assert!(Body::new(v(0, 0), v(0, 0), r, r, Fixed::one()).is_some());
    assert!(Body::new(v(0, 0), v(0, 0), r, r, Fixed::from_raw(-1)).is_none());
    assert!(Body::new(v(0, 0), v(0, 0), r, r, Fixed::from_raw(1_000_000_001)).is_none());
}

#[test]
fn roles_are_set_one_by_one() {
    let b = ball(0, 0, 1);
    assert!(b.player().is_player && !b.player().is_goal && !b.player().fixed);
    assert!(b.goal().is_goal && !b.goal().is_player && !b.goal().fixed);
    assert!(b.pinned().fixed && !b.pinned().is_goal && !b.pinned().is_player);
    assert_eq!(b.player().pos, b.pos);
}

#[test]
fn restored_body_is_back_at_the_start() {
    let mut b = ball(10, 20, 5);
    b.pos = v(99, 98);
    b.vel = v(-5, 7);
    b.acc = v(1, 1);
    let r = b.restored();
    assert_eq!(r.pos, v(10, 20));
    assert_eq!(r.vel, v(0, 0));
    assert_eq!(r.acc, v(0, 0));
    assert_eq!(r.initial_pos, v(10, 20));
    assert_eq!(r.radius, b.radius);
}

#[test]
fn disk_covers_its_rim() {
    let b = ball(100, 100, 5);
    assert!(b.covers(v(100, 100)));
    assert!(b.covers(v(105, 100)));
    assert!(b.covers(v(103, 104)));
    assert!(!b.covers(v(104, 104)));
    assert!(!b.covers(Vec2::new(Fixed::from_raw(105_000_000_001), Fixed::from_int(100))));
}

#[test]
fn wall_needs_length() {
    assert!(Wall::new(v(1, 1), v(1, 1), false).is_none());
    assert!(Wall::new(v(1, 1), v(1, 2), false).is_some());
    let tiny = Wall::new(v(0, 0), Vec2::new(Fixed::from_raw(1), Fixed::zero()), true).unwrap();
    assert!(tiny.is_valid());
    assert!(tiny.is_user_placed);
    assert!(!Wall { start: v(3, 3), end: v(3, 3), is_user_placed: true }.is_valid());
}

#[test]
fn empty_scenario_is_accepted() {
    let s = Scenario::empty(3);
    assert_eq!(s.max_walls, 3);
    assert!(s.bodies.is_empty() && s.walls.is_empty() && s.springs.is_empty());
    assert_eq!(s.check(), Ok(()));
}

#[test]
fn scenario_names_the_first_invalid_body() {
    let mut bad = ball(0, 0, 1);
    bad.mass = Fixed::zero();
    let mut worse = ball(0, 0, 1);
    worse.radius = Fixed::from_int(-1);
    let s = Scenario {
        bodies: vec![ball(0, 0, 1), bad, worse],
        walls: vec![Wall { start: v(0, 0), end: v(0, 0), is_user_placed: false }],
        springs: vec![],
        max_walls: 0,
    };
    assert_eq!(s.check(), Err(ScenarioError::InvalidBody(1)));
}

#[test]
fn scenario_names_the_first_wall_without_length() {
    let s = Scenario {
        bodies: vec![ball(0, 0, 1)],
        walls: vec![
            Wall { start: v(0, 0), end: v(0, 1), is_user_placed: false },
            Wall { start: v(5, 5), end: v(5, 5), is_user_placed: false },
            Wall { start: v(6, 6), end: v(6, 6), is_user_placed: true },
        ],
        springs: vec![],
        max_walls: 0,
    };
    assert_eq!(s.check(), Err(ScenarioError::DegenerateWall(1)));
}
