use physics_puzzle::body::Body;
use physics_puzzle::boundary::{resolve_boundaries, Arena};
use physics_puzzle::fixed::Fixed;
use physics_puzzle::vec2::Vec2;

fn v(x: i64, y: i64) -> Vec2 {
    Vec2::new(Fixed::from_int(x), Fixed::from_int(y))
}

fn arena() -> Arena {
    Arena {
        left: Fixed::from_int(210),
        top: Fixed::zero(),
        right: Fixed::from_int(1010),
        bottom: Fixed::from_int(600),
    }
}

fn ball(x: i64, y: i64, vx: i64, vy: i64) -> Body {
    Body::new(v(x, y), v(vx, vy), Fixed::from_int(20), Fixed::one(), Fixed::from_ratio(1, 2)).unwrap()
}

#[test]
fn body_inside_is_left_alone() {
    let b = ball(500, 300, 7, -9);
    assert_eq!(b.contained(&arena()), b);
    let touching = ball(230, 580, 7, -9);
    assert_eq!(touching.contained(&arena()), touching);
}

#[test]
fn left_edge_puts_back_and_bounces() {
    let r = ball(220, 300, -100, 30).contained(&arena());
    assert_eq!(r.pos, v(230, 300));
    assert_eq!(r.vel, v(50, 30));
}

#[test]
fn right_edge_puts_back_and_bounces() {
    let r = ball(1000, 300, 100, 30).contained(&arena());
    assert_eq!(r.pos, v(990, 300));
    assert_eq!(r.vel, v(-50, 30));
}

#[test]
fn top_edge_puts_back_and_bounces() {
    let r = ball(500, 5, 10, -80).contained(&arena());
    assert_eq!(r.pos, v(500, 20));
    assert_eq!(r.vel, v(10, 40));
}

#[test]
fn bottom_edge_puts_back_and_bounces() {
    let r = ball(500, 595, 10, 80).contained(&arena());
    assert_eq!(r.pos, v(500, 580));
    assert_eq!(r.vel, v(10, -40));
}

#[test]
fn both_axes_in_one_frame() {
    let r = ball(205, 700, -10, 20).contained(&arena());
    assert_eq!(r.pos, v(230, 580));
    assert_eq!(r.vel, v(5, -10));
}

#[test]
fn velocity_is_reversed_even_when_leaving() {
    // the edge reverses the velocity whichever way it points
    let r = ball(220, 300, 100, 0).contained(&arena());
    assert_eq!(r.pos, v(230, 300));
    assert_eq!(r.vel, v(-50, 0));
}

#[test]
fn fixed_body_is_not_clamped() {
    let b = ball(0, 0, 5, 5).pinned();
    assert_eq!(b.contained(&arena()), b);
}

#[test]
fn every_free_body_ends_inside() {
    let a = arena();
    let mut bodies = Vec::new();
    let mut x = -500;
    while x <= 2_000 {
        let mut y = -500;
        while y <= 1_200 {
            bodies.push(ball(x, y, 13, -17));
            y += 170;
        }
        x += 125;
    }
    resolve_boundaries(&mut bodies, &a);
    for b in &bodies {
        assert!(a.left.add(b.radius) <= b.pos.x && b.pos.x <= a.right.sub(b.radius));
        assert!(a.top.add(b.radius) <= b.pos.y && b.pos.y <= a.bottom.sub(b.radius));
    }
}

#[test]
fn low_edge_wins_in_an_arena_too_small() {
    let narrow = Arena {
        left: Fixed::from_int(0),
        top: Fixed::from_int(0),
        right: Fixed::from_int(30),
        bottom: Fixed::from_int(600),
    };
    let r = ball(15, 300, 4, 0).contained(&narrow);
    assert_eq!(r.pos, v(20, 300));
    assert_eq!(r.vel, v(-2, 0));
}
