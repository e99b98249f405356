//! Random balls for free play.

use rand::Rng;
use rand::rngs::ThreadRng;
use vstd::prelude::*;
use crate::fixed::{Fixed, SCALE};
use crate::vec2::{Vec2, V2};
use crate::body::{Body, BodyModel};
use crate::boundary::{Arena, ArenaModel};

verus! {

/// A new ball keeps this far from the edges of the arena, in raw units.
pub const SPAWN_MARGIN: i64 = 50 * SCALE;

/// `rand::rngs::ThreadRng`, the handle to the thread-local generator of
/// the `rand` crate. The verifier sees nothing inside it.
#[verifier::external_type_specification]
#[verifier::external_body]
pub struct ExThreadRng(ThreadRng);

/// `rand::rng` hands out a handle to the thread-local generator. Nothing
/// is claimed of the handle. The call takes no input; it panics only if
/// the operating system cannot seed the generator on first use in a
/// thread.
pub assume_specification[ rand::rng ]() -> (r: ThreadRng);

/// `Rng::random_range` on the half-open range `low..high` of `i64`. The
/// call panics on an empty range, which `requires` rules out. Like every
/// draw from the thread-local generator it also panics if the operating
/// system fails to reseed the generator, which is due after every 64 kB
/// drawn; no argument causes that and no `requires` can exclude it. Of
/// the result it is claimed only that it lies in the range; not which
/// value it is, nor that two calls agree.
#[verifier::external_body]
fn draw(rng: &mut ThreadRng, low: i64, high: i64) -> (r: i64)
    requires
        low < high,
    ensures
        low <= r < high,
{
    rng.random_range(low..high)
}

/// Whether a ball can be placed in the arena with [`SPAWN_MARGIN`] to
/// every edge.
pub open spec fn has_room(arena: ArenaModel) -> bool {
    &&& arena.left + 2 * SPAWN_MARGIN < arena.right
    &&& arena.top + 2 * SPAWN_MARGIN < arena.bottom
}

/// Whether `b` is a ball as free play makes them: valid, free, without a
/// role, at rest in its recorded initial state, away from the edges of the
/// arena, with moderate speed, size and mass, and either perfectly
/// elastic or clearly not.
pub open spec fn is_spawn(b: BodyModel, arena: ArenaModel, elastic: bool) -> bool {
    &&& b.valid()
    &&& !b.fixed && !b.is_player && !b.is_goal
    &&& b.acc == V2::zero()
    &&& b.initial_pos == b.pos
    &&& b.initial_vel == b.vel
    &&& arena.left + SPAWN_MARGIN <= b.pos.x < arena.right - SPAWN_MARGIN
    &&& arena.top + SPAWN_MARGIN <= b.pos.y < arena.bottom - SPAWN_MARGIN
    &&& -200 * SCALE <= b.vel.x < 200 * SCALE
    &&& -100 * SCALE <= b.vel.y < 100 * SCALE
    &&& 20 * SCALE <= b.radius < 40 * SCALE
    &&& SCALE / 2 <= b.mass < SCALE + SCALE / 2
    &&& if elastic {
        b.restitution == SCALE
    } else {
        SCALE / 2 <= b.restitution < 9 * (SCALE / 10)
    }
}

/// The free ball with the given raw state, at rest in it.
pub fn ball_from_draws(
    x: i64,
    y: i64,
    vx: i64,
    vy: i64,
    radius: i64,
    mass: i64,
    restitution: i64,
) -> (b: Body)
    ensures
        b@ == (BodyModel {
            pos: V2 { x: x as int, y: y as int },
            vel: V2 { x: vx as int, y: vy as int },
            acc: V2::zero(),
            radius: radius as int,
            mass: mass as int,
            restitution: restitution as int,
            is_goal: false,
            is_player: false,
            fixed: false,
            initial_pos: V2 { x: x as int, y: y as int },
            initial_vel: V2 { x: vx as int, y: vy as int },
        }),
{
    let pos = Vec2::new(Fixed::from_raw(x), Fixed::from_raw(y));
    let vel = Vec2::new(Fixed::from_raw(vx), Fixed::from_raw(vy));
    Body {
        pos,
        vel,
        acc: Vec2::zero(),
        radius: Fixed::from_raw(radius),
        mass: Fixed::from_raw(mass),
        restitution: Fixed::from_raw(restitution),
        is_goal: false,
        is_player: false,
        fixed: false,
        initial_pos: pos,
        initial_vel: vel,
    }
}

/// A ball with random position, velocity, size and mass, perfectly
/// elastic or not as asked; `None` when the arena has no room for one.
pub fn random_ball(arena: &Arena, elastic: bool) -> (r: Option<Body>)
    ensures
        r is Some <==> has_room(arena@),
        r matches Some(b) ==> is_spawn(b@, arena@, elastic),
{
    let wide = arena.right.raw as i128 - arena.left.raw as i128;
    let tall = arena.bottom.raw as i128 - arena.top.raw as i128;
    if wide <= 2 * SPAWN_MARGIN as i128 || tall <= 2 * SPAWN_MARGIN as i128 {
        return None;
    }
    let mut rng = rand::rng();
    let x = draw(&mut rng, arena.left.raw + SPAWN_MARGIN, arena.right.raw - SPAWN_MARGIN);
    let y = draw(&mut rng, arena.top.raw + SPAWN_MARGIN, arena.bottom.raw - SPAWN_MARGIN);
    let vx = draw(&mut rng, -200 * SCALE, 200 * SCALE);
    let vy = draw(&mut rng, -100 * SCALE, 100 * SCALE);
    let radius = draw(&mut rng, 20 * SCALE, 40 * SCALE);
    let mass = draw(&mut rng, SCALE / 2, SCALE + SCALE / 2);
    let restitution = if elastic {
        SCALE
    } else {
        draw(&mut rng, SCALE / 2, 9 * (SCALE / 10))
    };
    Some(ball_from_draws(x, y, vx, vy, radius, mass, restitution))
}

} // verus!
