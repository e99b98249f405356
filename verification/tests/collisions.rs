use physics_puzzle::body::Body;
use physics_puzzle::collision::{bounce, normal_between, resolve_collisions, resolve_pair, separate};
use physics_puzzle::fixed::Fixed;
use physics_puzzle::vec2::Vec2;

fn v(x: i64, y: i64) -> Vec2 {
    Vec2::new(Fixed::from_int(x), Fixed::from_int(y))
}

fn micro(x: i64, y: i64) -> Vec2 {
    Vec2::new(Fixed::from_ratio(x, 1_000_000), Fixed::from_ratio(y, 1_000_000))
}

fn ball(x: i64, y: i64, vx: i64, vy: i64, radius: i64, mass: i64, restitution_percent: i64) -> Body {
    Body::new(
        v(x, y),
        v(vx, vy),
        Fixed::from_int(radius),
        Fixed::from_int(mass),
        Fixed::from_ratio(restitution_percent, 100),
    )
    .unwrap()
}

fn close(a: Fixed, b: Fixed, tolerance: i64) -> bool {
    (a.to_raw() - b.to_raw()).abs() <= tolerance
}

#[test]
fn overlap_is_strict() {
    let a = ball(0, 0, 0, 0, 20, 1, 100);
    assert!(a.overlaps(&ball(39, 0, 0, 0, 20, 1, 100)));
    assert!(!a.overlaps(&ball(40, 0, 0, 0, 20, 1, 100)));
    assert!(!a.overlaps(&ball(41, 0, 0, 0, 20, 1, 100)));
    assert!(a.overlaps(&ball(0, 0, 0, 0, 20, 1, 100)));
    assert!(a.overlaps(&ball(24, 31, 0, 0, 20, 1, 100)));
    assert!(!a.overlaps(&ball(24, 32, 0, 0, 20, 1, 100)));
}

#[test]
fn bodies_apart_are_left_alone() {
    let a = ball(0, 0, 5, 0, 20, 1, 100);
    let b = ball(100, 0, -5, 0, 20, 1, 100);
    assert_eq!(resolve_pair(a, b), (a, b));
}

#[test]
fn normal_points_from_first_to_second() {
    let a = ball(0, 0, 0, 0, 20, 1, 100);
    assert_eq!(normal_between(&a, &ball(10, 0, 0, 0, 20, 1, 100)), micro(1_000_000, 0));
    assert_eq!(normal_between(&a, &ball(0, -10, 0, 0, 20, 1, 100)), micro(0, -1_000_000));
    assert_eq!(normal_between(&a, &ball(3, 4, 0, 0, 20, 1, 100)), micro(600_000, 800_000));
}

#[test]
fn coinciding_centres_use_the_x_axis() {
    let a = ball(7, 7, 0, 0, 20, 1, 100);
    let b = ball(7, 7, 0, 0, 10, 1, 100);
    assert_eq!(normal_between(&a, &b), micro(1_000_000, 0));
    let (a2, b2) = separate(a, b);
    // overlap 30, half of it 15, shared equally
    assert_eq!(a2.pos, micro(-500_000, 7_000_000));
    assert_eq!(b2.pos, micro(14_500_000, 7_000_000));
}

#[test]
fn equal_masses_share_the_push() {
    let a = ball(0, 0, 0, 0, 20, 1, 100);
    let b = ball(30, 0, 0, 0, 20, 1, 100);
    let (a2, b2) = separate(a, b);
    // overlap 10, half of it 5, half of that each
    assert_eq!(a2.pos, micro(-2_500_000, 0));
    assert_eq!(b2.pos, micro(32_500_000, 0));
    assert_eq!(a2.vel, a.vel);
    assert_eq!(b2.vel, b.vel);
}

#[test]
fn push_is_weighted_by_the_other_mass() {
    let light = ball(0, 0, 0, 0, 20, 1, 100);
    let heavy = ball(30, 0, 0, 0, 20, 3, 100);
    let (l, h) = separate(light, heavy);
    // half overlap 5: the light body moves by 5 * 3/4, the heavy one by 5 * 1/4
    assert_eq!(l.pos, micro(-3_750_000, 0));
    assert_eq!(h.pos, micro(31_250_000, 0));
}

#[test]
fn fixed_body_is_never_pushed() {
    let free = ball(0, 0, 0, 0, 20, 1, 100);
    let wall = ball(30, 0, 0, 0, 20, 15, 10).pinned();
    let (f, w) = separate(free, wall);
    assert_eq!(w, wall);
    assert_eq!(f.pos, micro(-4_687_500, 0));
    let (w2, f2) = separate(wall, free);
    assert_eq!(w2, wall);
    assert_eq!(f2.pos, micro(-4_687_500, 0));
}

#[test]
fn head_on_equal_masses_swap_velocities() {
    let a = ball(0, 0, 400, 0, 20, 1, 100);
    let b = ball(30, 0, 0, 0, 20, 1, 100);
    let (a2, b2) = bounce(a, b, micro(1_000_000, 0));
    assert_eq!(a2.vel, v(0, 0));
    assert_eq!(b2.vel, v(400, 0));
}

#[test]
fn inelastic_head_on_shares_the_velocity() {
    let a = ball(0, 0, 400, 0, 20, 1, 0);
    let b = ball(30, 0, 0, 0, 20, 1, 100);
    let (a2, b2) = bounce(a, b, micro(1_000_000, 0));
    // the lesser restitution counts: both continue at 200
    assert_eq!(a2.vel, v(200, 0));
    assert_eq!(b2.vel, v(200, 0));
}

#[test]
fn half_restitution_head_on() {
    let a = ball(0, 0, 400, 0, 20, 1, 50);
    let b = ball(30, 0, 0, 0, 20, 1, 80);
    let (a2, b2) = bounce(a, b, micro(1_000_000, 0));
    // impulse 1.5 * 400 / 2 = 300
    assert_eq!(a2.vel, v(100, 0));
    assert_eq!(b2.vel, v(300, 0));
}

#[test]
fn unequal_masses_exchange_impulse() {
    let a = ball(0, 0, 300, 0, 20, 1, 100);
    let b = ball(30, 0, 0, 0, 20, 2, 100);
    let (a2, b2) = bounce(a, b, micro(1_000_000, 0));
    // impulse 2 * 300 / (1 + 1/2) = 400: a loses 400, b gains 200
    assert_eq!(a2.vel, v(-100, 0));
    assert_eq!(b2.vel, v(200, 0));
}

#[test]
fn separating_pair_is_resolved_too() {
    let a = ball(0, 0, -100, 0, 20, 1, 100);
    let b = ball(30, 0, 100, 0, 20, 1, 100);
    let (a2, b2) = resolve_pair(a, b);
    assert_eq!(a2.vel, v(100, 0));
    assert_eq!(b2.vel, v(-100, 0));
}

#[test]
fn tangential_velocity_is_kept() {
    let a = ball(0, 0, 100, 50, 20, 1, 100);
    let b = ball(30, 0, 0, -20, 20, 1, 100);
    let (a2, b2) = resolve_pair(a, b);
    assert_eq!(a2.vel, v(0, 50));
    assert_eq!(b2.vel, v(100, -20));
}

#[test]
fn fixed_body_keeps_its_velocity() {
    let free = ball(0, 0, 100, 0, 20, 1, 100);
    let mut block = ball(30, 0, 0, 0, 20, 15, 100).pinned();
    block.vel = v(3, 4);
    let (f, b) = resolve_pair(free, block);
    assert_eq!(b, block);
    assert!(f.vel.x.to_raw() < 0);
    let (b2, f2) = resolve_pair(block, ball(60, 0, -100, 0, 20, 1, 100));
    assert_eq!(b2, block);
    assert!(f2.vel.x.to_raw() > 0);
}

#[test]
fn elastic_equal_masses_keep_relative_speed_head_on() {
    let a = ball(0, 0, 317, 0, 20, 7, 100);
    let b = ball(35, 0, -113, 0, 20, 7, 100);
    let (a2, b2) = resolve_pair(a, b);
    let before = b.vel.sub(a.vel).length();
    let after = b2.vel.sub(a2.vel).length();
    assert!(close(before, after, 20));
    assert!(close(a2.vel.x, b.vel.x, 20));
    assert!(close(b2.vel.x, a.vel.x, 20));
}

#[test]
fn elastic_equal_masses_keep_speeds_when_grazing() {
    let a = ball(0, 0, 250, 40, 20, 3, 100);
    let b = ball(12, 37, -60, -90, 20, 3, 100);
    let (a2, b2) = resolve_pair(a, b);
    let energy_before = a.vel.dot(&a.vel).add(b.vel.dot(&b.vel));
    let energy_after = a2.vel.dot(&a2.vel).add(b2.vel.dot(&b2.vel));
    // kinetic energy agrees to one part in a hundred million
    assert!(close(energy_before, energy_after, energy_before.to_raw() / 100_000_000));
    let before = b.vel.sub(a.vel).length();
    let after = b2.vel.sub(a2.vel).length();
    assert!(close(before, after, 1_000));
}

#[test]
fn equal_masses_keep_momentum_and_centre() {
    let a = ball(0, 0, 250, 40, 20, 3, 70);
    let b = ball(12, 37, -60, -90, 25, 3, 90);
    let (a2, b2) = resolve_pair(a, b);
    assert_eq!(a2.vel.add(b2.vel), a.vel.add(b.vel));
    assert_eq!(a2.pos.add(b2.pos), a.pos.add(b.pos));
}

#[test]
fn every_pair_is_visited_once() {
    // three balls in a row, overlapping their neighbours
    let mut bodies = vec![
        ball(0, 0, 0, 0, 20, 1, 100),
        ball(30, 0, 0, 0, 20, 1, 100),
        ball(60, 0, 0, 0, 20, 1, 100),
    ];
    let hit = resolve_collisions(&mut bodies);
    assert!(!hit);
    // pair (0, 1): overlap 10, each moves 2.5; then pair (1, 2): distance 27.5,
    // overlap 12.5, each moves 3.125
    assert_eq!(bodies[0].pos, micro(-2_500_000, 0));
    assert_eq!(bodies[1].pos, micro(29_375_000, 0));
    assert_eq!(bodies[2].pos, micro(63_125_000, 0));
}

#[test]
fn no_bodies_no_contacts() {
    let mut none: Vec<Body> = Vec::new();
    assert!(!resolve_collisions(&mut none));
    let mut one = vec![ball(0, 0, 1, 1, 20, 1, 100)];
    assert!(!resolve_collisions(&mut one));
    assert_eq!(one[0], ball(0, 0, 1, 1, 20, 1, 100));
}

#[test]
fn player_touching_goal_does_not_win() {
    let player = ball(0, 0, 0, 0, 20, 1, 100).player();
    let goal = ball(30, 0, 0, 0, 20, 1, 100).goal();
    assert!(!player.scores_with(&goal));
    assert!(!goal.scores_with(&player));
    let mut bodies = vec![player, goal];
    assert!(!resolve_collisions(&mut bodies));
}

#[test]
fn fixed_body_touching_goal_does_not_win() {
    let block = ball(0, 0, 0, 0, 20, 1, 100).pinned();
    let goal = ball(30, 0, 0, 0, 20, 1, 100).goal();
    assert!(!block.scores_with(&goal));
    let mut bodies = vec![goal, block];
    assert!(!resolve_collisions(&mut bodies));
}

#[test]
fn other_body_touching_goal_wins() {
    let other = ball(0, 0, 0, 0, 20, 1, 100);
    let goal = ball(30, 0, 0, 0, 20, 1, 100).goal();
    assert!(other.scores_with(&goal));
    assert!(goal.scores_with(&other));
    let mut bodies = vec![goal, other];
    assert!(resolve_collisions(&mut bodies));
    let mut apart = vec![goal, ball(300, 0, 0, 0, 20, 1, 100)];
    assert!(!resolve_collisions(&mut apart));
}

#[test]
fn two_goals_do_not_win_by_touching() {
    let a = ball(0, 0, 0, 0, 20, 1, 100).goal();
    let b = ball(30, 0, 0, 0, 20, 1, 100).goal();
    assert!(!a.scores_with(&b));
    let mut bodies = vec![a, b];
    assert!(!resolve_collisions(&mut bodies));
}

#[test]
fn contact_made_by_an_earlier_push_counts() {
    // the player pushes the middle ball into the goal within one pass
    let player = ball(0, 0, 0, 0, 20, 1, 100).player();
    let middle = ball(30, 0, 0, 0, 20, 1, 100);
    let goal = ball(71, 0, 0, 0, 20, 1, 100).goal();
    assert!(!middle.overlaps(&goal));
    let mut bodies = vec![player, middle, goal];
    assert!(resolve_collisions(&mut bodies));
}

#[test]
fn inverse_mass_of_a_body() {
    assert_eq!(ball(0, 0, 0, 0, 1, 4, 100).inverse_mass(), Fixed::from_ratio(1, 4));
    assert_eq!(ball(0, 0, 0, 0, 1, 1_000_000_000, 100).inverse_mass().to_raw(), 1);
}

#[test]
fn elastic_exchange_stays_within_its_tolerance() {
    let masses = [Fixed::one(), Fixed::from_int(7), Fixed::from_ratio(1, 2), Fixed::from_ratio(3, 1_000)];
    let places = [(31, 0), (0, -25), (12, 37), (-20, 21), (1, 1), (-39, -2)];
    let speeds = [(250, 40, -60, -90), (0, 0, 300, 1), (-17, 400, 17, -400), (5, 5, 5, 5)];
    for mass in masses {
        for (x, y) in places {
            for (ax, ay, bx, by) in speeds {
                let a = Body::new(v(0, 0), v(ax, ay), Fixed::from_int(20), mass, Fixed::one()).unwrap();
                let b = Body::new(v(x, y), v(bx, by), Fixed::from_int(20), mass, Fixed::one()).unwrap();
                assert!(a.overlaps(&b));
                let normal = normal_between(&a, &b);
                let swap = normal.mul(b.vel.sub(a.vel).dot(&normal));
                let tolerance = 2 + 2 * a.inverse_mass().to_raw() / Fixed::one().to_raw();
                let (a2, b2) = resolve_pair(a, b);
                assert!(close(a2.vel.x, a.vel.x.add(swap.x), tolerance));
                assert!(close(a2.vel.y, a.vel.y.add(swap.y), tolerance));
                assert!(close(b2.vel.x, b.vel.x.sub(swap.x), tolerance));
                assert!(close(b2.vel.y, b.vel.y.sub(swap.y), tolerance));
            }
        }
    }
}

#[test]
fn elastic_collision_swaps_the_normal_velocities() {
    let masses = [Fixed::one(), Fixed::from_int(7), Fixed::from_ratio(1, 2)];
    let places = [(31, 0), (0, -25), (12, 37), (-20, 21), (1, 1), (-39, -2)];
    let speeds = [(250, 40, -60, -90), (0, 0, 300, 1), (-17, 400, 17, -400), (5, 5, 5, 5)];
    for mass in masses {
        for (x, y) in places {
            for (ax, ay, bx, by) in speeds {
                let a = Body::new(v(0, 0), v(ax, ay), Fixed::from_int(20), mass, Fixed::one()).unwrap();
                let b = Body::new(v(x, y), v(bx, by), Fixed::from_int(20), mass, Fixed::one()).unwrap();
                let normal = normal_between(&a, &b);
                let closing = b.vel.sub(a.vel).dot(&normal).abs().to_raw();
                let distance = b.pos.sub(a.pos).length().to_raw();
                let exchange = 2 + 2 * a.inverse_mass().to_raw() / Fixed::one().to_raw();
                let shift = 8 + 4 * closing / Fixed::one().to_raw() + 2 * closing / distance;
                let tolerance = shift + 2 * exchange + 6;
                let (a2, b2) = resolve_pair(a, b);
                assert!(close(a2.vel.dot(&normal), b.vel.dot(&normal), tolerance));
                assert!(close(b2.vel.dot(&normal), a.vel.dot(&normal), tolerance));
            }
        }
    }
}

#[test]
fn elastic_collision_keeps_the_tangential_velocities() {
    let masses = [Fixed::one(), Fixed::from_int(7), Fixed::from_ratio(1, 2)];
    let places = [(31, 0), (0, -25), (12, 37), (-20, 21), (1, 1), (-39, -2), (0, 0)];
    let speeds = [(250, 40, -60, -90), (0, 0, 300, 1), (-17, 400, 17, -400), (5, 5, 5, 5)];
    for mass in masses {
        for (x, y) in places {
            for (ax, ay, bx, by) in speeds {
                let a = Body::new(v(0, 0), v(ax, ay), Fixed::from_int(20), mass, Fixed::one()).unwrap();
                let b = Body::new(v(x, y), v(bx, by), Fixed::from_int(20), mass, Fixed::one()).unwrap();
                let tangent = normal_between(&a, &b).perp();
                let exchange = 2 + 2 * a.inverse_mass().to_raw() / Fixed::one().to_raw();
                let tolerance = 2 * exchange + 7;
                let (a2, b2) = resolve_pair(a, b);
                assert!(close(a2.vel.dot(&tangent), a.vel.dot(&tangent), tolerance));
                assert!(close(b2.vel.dot(&tangent), b.vel.dot(&tangent), tolerance));
            }
        }
    }
}

#[test]
fn lone_contact_leaves_the_other_bodies() {
    let far = ball(500, 500, 3, 4, 20, 1, 100);
    let a = ball(0, 0, 250, 40, 20, 2, 100);
    let b = ball(12, 37, -60, -90, 20, 2, 100);
    let mut bodies = vec![far, a, ball(-500, 7, 0, 0, 20, 9, 50), b, ball(900, -900, 1, 1, 20, 1, 0)];
    resolve_collisions(&mut bodies);
    let (a2, b2) = resolve_pair(a, b);
    assert_eq!(bodies[0], far);
    assert_eq!(bodies[1], a2);
    assert_eq!(bodies[2], ball(-500, 7, 0, 0, 20, 9, 50));
    assert_eq!(bodies[3], b2);
    assert_eq!(bodies[4], ball(900, -900, 1, 1, 20, 1, 0));
}

#[test]
fn elastic_collision_keeps_energy_and_relative_speed() {
    let masses = [Fixed::one(), Fixed::from_int(7), Fixed::from_ratio(1, 2)];
    let places = [(31, 0), (0, -25), (12, 37), (-20, 21), (1, 1), (-39, -2)];
    let speeds = [(250, 40, -60, -90), (0, 0, 300, 1), (-17, 400, 17, -400), (5, 5, 5, 5), (400, 0, 0, 0)];
    let scale = Fixed::one().to_raw() as i128;
    let square = |x: Fixed| (x.to_raw() as i128) * (x.to_raw() as i128);
    for mass in masses {
        for (x, y) in places {
            for (ax, ay, bx, by) in speeds {
                let a = Body::new(v(0, 0), v(ax, ay), Fixed::from_int(20), mass, Fixed::one()).unwrap();
                let b = Body::new(v(x, y), v(bx, by), Fixed::from_int(20), mass, Fixed::one()).unwrap();
                let normal = normal_between(&a, &b);
                let rel = b.vel.sub(a.vel);
                let q = rel.dot(&normal).to_raw() as i128;
                let reach = rel.x.abs().to_raw().max(rel.y.abs().to_raw()) as i128;
                let len = b.pos.sub(a.pos).length().to_raw() as i128;
                let tol = (2 + 2 * a.inverse_mass().to_raw() / Fixed::one().to_raw()) as i128;
                let tolerance = 2 * (4 * q * q / scale) + 2 * (2 * q * q / len) + 6 + 12 * q.abs()
                    + 4 * reach + 4 * tol * reach + 8 * tol * q.abs() + 4 * tol * tol;
                let (a2, b2) = resolve_pair(a, b);
                let before = square(a.vel.x) + square(a.vel.y) + square(b.vel.x) + square(b.vel.y);
                let after = square(a2.vel.x) + square(a2.vel.y) + square(b2.vel.x) + square(b2.vel.y);
                assert!((after - before).abs() <= tolerance);
                // far below one part in a hundred million of the energy, where there is any
                assert!((after - before).abs() * 100_000_000 <= before.max(scale * scale * 100));
                let rel2 = b2.vel.sub(a2.vel);
                let parted = square(rel2.x) + square(rel2.y);
                let approached = square(rel.x) + square(rel.y);
                assert!((parted - approached).abs() <= 2 * tolerance);
            }
        }
    }
}
