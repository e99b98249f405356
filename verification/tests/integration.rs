use physics_puzzle::body::{Anchor, Body, Spring};
use physics_puzzle::fixed::Fixed;
use physics_puzzle::integrator::{apply_springs, force_of, integrate_all};
use physics_puzzle::vec2::Vec2;

fn v(x: i64, y: i64) -> Vec2 {
    Vec2::new(Fixed::from_int(x), Fixed::from_int(y))
}

fn ball(x: i64, y: i64, mass: i64) -> Body {
    Body::new(v(x, y), v(0, 0), Fixed::from_int(10), Fixed::from_int(mass), Fixed::one()).unwrap()
}

fn spring_to_point(body: usize, x: i64, y: i64, rest: i64, stiffness: i64) -> Spring {
    Spring {
        body,
        anchor: Anchor::Point(v(x, y)),
        rest_length: Fixed::from_int(rest),
        stiffness: Fixed::from_int(stiffness),
    }
}

#[test]
fn gravity_accelerates_then_moves() {
    let mut b = ball(100, 100, 1);
    b.vel = v(10, 0);
    let r = b.integrated(v(0, 400), Fixed::from_ratio(1, 2));
    // velocity first: (10, 0) + (0, 400) * 0.5, then position by the new velocity
    assert_eq!(r.vel, v(10, 200));
    assert_eq!(r.pos, v(105, 200));
    assert_eq!(r.acc, v(0, 0));
}

#[test]
fn pending_acceleration_is_used_and_cleared() {
    let mut b = ball(0, 0, 1);
    b.acc = v(6, -2);
    let r = b.integrated(v(0, 2), Fixed::from_int(2));
    assert_eq!(r.vel, v(12, 0));
    assert_eq!(r.pos, v(24, 0));
    assert_eq!(r.acc, v(0, 0));
}

#[test]
fn fixed_body_is_not_integrated() {
    let mut b = ball(5, 5, 1).pinned();
    b.vel = v(3, 3);
    b.acc = v(1, 1);
    assert_eq!(b.integrated(v(0, 400), Fixed::one()), b);
}

#[test]
fn step_of_sixteen_milliseconds() {
    let mut b = ball(100, 300, 1);
    b.vel = v(400, 0);
    let r = b.integrated(v(0, 0), Fixed::from_ratio(16, 1_000));
    assert_eq!(r.pos.x, Fixed::from_ratio(1_064, 10));
    assert_eq!(r.pos.y, Fixed::from_int(300));
    assert_eq!(r.vel, v(400, 0));
}

#[test]
fn all_bodies_are_integrated() {
    let mut bodies = vec![ball(0, 0, 1), ball(10, 0, 1).pinned(), ball(20, 0, 1)];
    integrate_all(&mut bodies, v(0, 10), Fixed::one());
    assert_eq!(bodies[0].pos, v(0, 10));
    assert_eq!(bodies[1].pos, v(10, 0));
    assert_eq!(bodies[2].pos, v(20, 10));
    assert_eq!(bodies[2].vel, v(0, 10));
}

#[test]
fn stretched_spring_pulls_toward_the_anchor() {
    let bodies = vec![ball(0, 0, 1)];
    // anchor 10 to the right, rest length 4, stiffness 3: force 3 * (10 - 4) = 18 to the right
    let f = force_of(&bodies, &spring_to_point(0, 10, 0, 4, 3)).unwrap();
    assert_eq!(f, v(18, 0));
}

#[test]
fn compressed_spring_pushes_away_from_the_anchor() {
    let bodies = vec![ball(0, 0, 1)];
    let f = force_of(&bodies, &spring_to_point(0, 0, 3, 5, 10)).unwrap();
    assert_eq!(f, v(0, -20));
}

#[test]
fn spring_force_follows_the_direction() {
    let bodies = vec![ball(0, 0, 1)];
    // anchor at (3, 4): distance 5, rest 0, stiffness 1: force (3, 4)
    let f = force_of(&bodies, &spring_to_point(0, 3, 4, 0, 1)).unwrap();
    assert_eq!(f, v(3, 4));
}

#[test]
fn spring_at_rest_length_has_zero_force() {
    let bodies = vec![ball(0, 0, 1)];
    let f = force_of(&bodies, &spring_to_point(0, 0, 7, 7, 50)).unwrap();
    assert_eq!(f, v(0, 0));
}

#[test]
fn spring_on_its_anchor_has_no_force() {
    let bodies = vec![ball(4, 4, 1)];
    assert_eq!(force_of(&bodies, &spring_to_point(0, 4, 4, 7, 50)), None);
}

#[test]
fn spring_without_body_has_no_force() {
    let bodies = vec![ball(0, 0, 1)];
    assert_eq!(force_of(&bodies, &spring_to_point(1, 10, 0, 4, 3)), None);
    assert_eq!(force_of(&bodies, &spring_to_point(usize::MAX, 10, 0, 4, 3)), None);
    assert_eq!(force_of(&Vec::new(), &spring_to_point(0, 10, 0, 4, 3)), None);
}

#[test]
fn spring_to_a_missing_body_has_no_force() {
    let bodies = vec![ball(0, 0, 1)];
    let s = Spring {
        body: 0,
        anchor: Anchor::Body(1),
        rest_length: Fixed::zero(),
        stiffness: Fixed::one(),
    };
    assert_eq!(force_of(&bodies, &s), None);
}

#[test]
fn spring_between_bodies_pulls_one_of_them() {
    let mut bodies = vec![ball(0, 0, 2), ball(10, 0, 1)];
    let s = Spring {
        body: 0,
        anchor: Anchor::Body(1),
        rest_length: Fixed::from_int(4),
        stiffness: Fixed::from_int(3),
    };
    apply_springs(&mut bodies, &vec![s]);
    // force 18 on a mass of 2
    assert_eq!(bodies[0].acc, v(9, 0));
    assert_eq!(bodies[1].acc, v(0, 0));
    assert_eq!(bodies[0].pos, v(0, 0));
    assert_eq!(bodies[0].vel, v(0, 0));
}

#[test]
fn springs_on_one_body_add_up() {
    let mut bodies = vec![ball(0, 0, 1)];
    let springs = vec![spring_to_point(0, 10, 0, 4, 3), spring_to_point(0, 0, 10, 0, 1)];
    apply_springs(&mut bodies, &springs);
    assert_eq!(bodies[0].acc, v(18, 10));
}

#[test]
fn inert_springs_are_skipped() {
    let mut bodies = vec![ball(0, 0, 1)];
    let springs = vec![
        spring_to_point(7, 10, 0, 4, 3),
        spring_to_point(0, 0, 0, 4, 3),
        spring_to_point(0, 10, 0, 4, 3),
    ];
    apply_springs(&mut bodies, &springs);
    assert_eq!(bodies[0].acc, v(18, 0));
}

#[test]
fn fixed_body_takes_no_spring_force() {
    let mut bodies = vec![ball(0, 0, 1).pinned()];
    apply_springs(&mut bodies, &vec![spring_to_point(0, 10, 0, 4, 3)]);
    assert_eq!(bodies[0], ball(0, 0, 1).pinned());
}

#[test]
fn spring_force_then_integration() {
    let mut bodies = vec![ball(0, 0, 2)];
    apply_springs(&mut bodies, &vec![spring_to_point(0, 10, 0, 4, 3)]);
    integrate_all(&mut bodies, v(0, 1), Fixed::one());
    assert_eq!(bodies[0].vel, v(9, 1));
    assert_eq!(bodies[0].pos, v(9, 1));
    assert_eq!(bodies[0].acc, v(0, 0));
}
