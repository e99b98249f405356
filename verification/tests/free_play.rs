use physics_puzzle::boundary::Arena;
use physics_puzzle::fixed::{Fixed, SCALE};
use physics_puzzle::spawn::{ball_from_draws, random_ball, SPAWN_MARGIN};
use physics_puzzle::vec2::Vec2;

fn arena(width: i64, height: i64) -> Arena {
    Arena {
        left: Fixed::zero(),
        top: Fixed::zero(),
        right: Fixed::from_int(width),
        bottom: Fixed::from_int(height),
    }
}

#[test]
fn ball_made_of_draws() {
    let b = ball_from_draws(1, -2, 3, -4, 5, 6, 7);
    assert_eq!(b.pos, Vec2::new(Fixed::from_raw(1), Fixed::from_raw(-2)));
    assert_eq!(b.vel, Vec2::new(Fixed::from_raw(3), Fixed::from_raw(-4)));
    assert_eq!(b.initial_pos, b.pos);
    assert_eq!(b.initial_vel, b.vel);
    assert_eq!(b.acc, Vec2::zero());
    assert_eq!(b.radius.to_raw(), 5);
    assert_eq!(b.mass.to_raw(), 6);
    assert_eq!(b.restitution.to_raw(), 7);
    assert!(!b.fixed && !b.is_goal && !b.is_player);
}

#[test]
fn random_balls_are_valid_and_well_inside() {
    let a = arena(800, 600);
    let mut n = 0;
    while n < 500 {
        let b = random_ball(&a, n % 2 == 0).unwrap();
        assert!(b.is_valid());
        assert!(!b.fixed && !b.is_goal && !b.is_player);
        assert_eq!(b.initial_pos, b.pos);
        assert_eq!(b.initial_vel, b.vel);
        assert!(Fixed::from_int(50) <= b.pos.x && b.pos.x < Fixed::from_int(750));
        assert!(Fixed::from_int(50) <= b.pos.y && b.pos.y < Fixed::from_int(550));
        assert!(Fixed::from_int(-200) <= b.vel.x && b.vel.x < Fixed::from_int(200));
        assert!(Fixed::from_int(-100) <= b.vel.y && b.vel.y < Fixed::from_int(100));
        assert!(Fixed::from_int(20) <= b.radius && b.radius < Fixed::from_int(40));
        assert!(Fixed::from_ratio(1, 2) <= b.mass && b.mass < Fixed::from_ratio(3, 2));
        if n % 2 == 0 {
            assert_eq!(b.restitution, Fixed::one());
        } else {
            assert!(Fixed::from_ratio(1, 2) <= b.restitution && b.restitution < Fixed::from_ratio(9, 10));
        }
        n += 1;
    }
}

#[test]
fn random_balls_differ() {
    let a = arena(800, 600);
    let first = random_ball(&a, false).unwrap();
    let mut different = false;
    let mut n = 0;
    while n < 50 {
        if random_ball(&a, false).unwrap() != first {
            different = true;
        }
        n += 1;
    }
    assert!(different);
}

#[test]
fn no_ball_without_room() {
    assert_eq!(SPAWN_MARGIN, 50 * SCALE);
    assert!(random_ball(&arena(100, 600), true).is_none());
    assert!(random_ball(&arena(800, 100), true).is_none());
    assert!(random_ball(&arena(0, 0), false).is_none());
    assert!(random_ball(&arena(-5, 600), false).is_none());
    let barely = Arena {
        left: Fixed::zero(),
        top: Fixed::zero(),
        right: Fixed::from_raw(100 * SCALE + 1),
        bottom: Fixed::from_raw(100 * SCALE + 1),
    };
    let b = random_ball(&barely, true).unwrap();
    assert_eq!(b.pos, Vec2::new(Fixed::from_int(50), Fixed::from_int(50)));
}

#[test]
fn widest_arena_has_room() {
    let widest = Arena {
        left: Fixed::from_raw(i64::MIN),
        top: Fixed::from_raw(i64::MIN),
        right: Fixed::from_raw(i64::MAX),
        bottom: Fixed::from_raw(i64::MAX),
    };
    assert!(random_ball(&widest, false).unwrap().is_valid());
}
