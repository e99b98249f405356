//! General laws of the simulation, proved from the definitions of its
//! steps.

use vstd::prelude::*;
use crate::vec2::{V2, lemma_normalized_within_unit};
use crate::body::{BodyModel, WallModel, all_moved_from, lemma_moved_twice};
use crate::boundary::{ArenaModel, contained, all_contained};
use crate::integrator::{
    springs_applied, all_integrated, lemma_springs_move, lemma_integration_moves,
};
use crate::boundary::lemma_containment_moves;
use crate::collision::{
    Contacts, all_pairs_handled, lemma_pairs_move, triggers_goal, resolved, bounced, separated,
    impulse, rebound, closing_speed, inverse_mass, overlapping, contact_normal, no_pair_scores,
    lemma_inverse_mass_positive, lemma_moving_keeps_scores, lemma_rows_without_score,
    lemma_row_wins, lemma_rows_keep_win, row_handled, rows_handled, scores_when_met,
    lemma_win_has_a_cause, lemma_cause_wins, overlaps_when_met, lemma_met_pair_keeps_roles,
    is_lone_contact, lemma_lone_contact_is_resolved,
};
use crate::fixed::{
    SCALE, mul_raw, add_raw, abs_raw, quot, unclamped, lemma_quot_error, lemma_quot_multiple,
    lemma_quot_negated, lemma_quot_add_multiple, lemma_isqrt_exists,
};
use crate::walls::{
    lemma_walls_move, deflected, touches, approaching, wall_normal, wall_direction,
    wall_distance, along_wall, is_clear_of, is_lone_wall, lemma_clear_body_passes,
    lemma_lone_wall_acts,
};
use crate::rounding::{
    lemma_product_within, lemma_unit_direction, lemma_shift_along, lemma_shift_is_nearly_exact,
    lemma_product_is_stable, lemma_product_of_difference, lemma_shift_across, shift_tolerance,
    energy_tolerance, lemma_exchange_keeps_energy,
};
use crate::sim::{SimModel, GameState, EventModel, part_of_puzzle};
use crate::levels::lemma_levels_are_recorded_as_set_up;

verus! {

/// One frame: the length of its time step and the time it happens at.
pub struct Frame {
    pub dt: int,
    pub now: int,
}

/// The game after the given frames of physics, in order.
pub open spec fn run(m: SimModel, frames: Seq<Frame>) -> SimModel
    decreases frames.len(),
{
    if frames.len() == 0 {
        m
    } else {
        run(m, frames.drop_last()).stepped(frames.last().dt, frames.last().now)
    }
}

/// A frame of physics moves bodies, may end the game, and does nothing
/// else: the bodies keep their number, order, radius, mass, restitution,
/// roles and recorded initial state, and walls, springs, gravity, arena,
/// level and wall budget stay as they are.
pub proof fn lemma_step_moves_bodies(m: SimModel, dt: int, now: int)
    ensures
        all_moved_from(m.stepped(dt, now).bodies, m.bodies),
        m.stepped(dt, now) == (SimModel {
            bodies: m.stepped(dt, now).bodies,
            state: m.stepped(dt, now).state,
            won_at: m.stepped(dt, now).won_at,
            ..m
        }),
{
    if m.state == GameState::Running {
        let pulled = springs_applied(m.bodies, m.springs, m.springs.len() as int);
        let moved = all_integrated(pulled, m.gravity, dt);
        let kept = all_contained(moved, m.arena);
        assert(kept == m.bodies_after_boundaries(dt));
        let contacts = all_pairs_handled(kept);
        lemma_springs_move(m.bodies, m.springs, m.springs.len() as int);
        lemma_integration_moves(pulled, m.gravity, dt);
        lemma_containment_moves(moved, m.arena);
        lemma_pairs_move(kept);
        lemma_walls_move(contacts.bodies, m.walls);
    }
}

/// A fixed body never changes: whatever springs, gravity, boundaries,
/// collisions and walls do in a frame, it is afterwards exactly as it was
/// before.
pub proof fn lemma_fixed_body_stays(m: SimModel, dt: int, now: int, i: int)
    requires
        0 <= i < m.bodies.len(),
        m.bodies[i].fixed,
    ensures
        m.stepped(dt, now).bodies.len() == m.bodies.len(),
        m.stepped(dt, now).bodies[i] == m.bodies[i],
{
    lemma_step_moves_bodies(m, dt, now);
}

/// Any number of frames moves bodies, may end the game, and does nothing
/// else.
pub proof fn lemma_run_moves_bodies(m: SimModel, frames: Seq<Frame>)
    ensures
        all_moved_from(run(m, frames).bodies, m.bodies),
        run(m, frames) == (SimModel {
            bodies: run(m, frames).bodies,
            state: run(m, frames).state,
            won_at: run(m, frames).won_at,
            ..m
        }),
    decreases frames.len(),
{
    if frames.len() > 0 {
        lemma_run_moves_bodies(m, frames.drop_last());
        lemma_step_moves_bodies(run(m, frames.drop_last()), frames.last().dt, frames.last().now);
    }
}

/// A fixed body never changes, however many frames pass.
pub proof fn lemma_fixed_body_stays_forever(m: SimModel, frames: Seq<Frame>, i: int)
    requires
        0 <= i < m.bodies.len(),
        m.bodies[i].fixed,
    ensures
        run(m, frames).bodies.len() == m.bodies.len(),
        run(m, frames).bodies[i] == m.bodies[i],
{
    lemma_run_moves_bodies(m, frames);
}

/// After clamping, a free body lies inside any arena that is large enough
/// for it: its centre is at least one radius from every edge.
pub proof fn lemma_clamped_body_is_inside(b: BodyModel, arena: ArenaModel)
    requires
        !b.fixed,
        arena.fits(b.radius),
        i64::MIN <= b.pos.x <= i64::MAX,
        i64::MIN <= b.pos.y <= i64::MAX,
        b.radius <= i64::MAX,
    ensures
        arena.holds(contained(b, arena).pos, b.radius),
{
}

/// In every frame of a running game, the arena stage leaves every free
/// body inside an arena that is large enough for it.
pub proof fn lemma_boundaries_keep_bodies_inside(m: SimModel, dt: int, i: int)
    requires
        0 <= i < m.bodies.len(),
        !m.bodies[i].fixed,
        m.arena.fits(m.bodies[i].radius),
    ensures
        m.bodies_after_boundaries(dt).len() == m.bodies.len(),
        m.arena.holds(m.bodies_after_boundaries(dt)[i].pos, m.bodies[i].radius),
{
    let pulled = springs_applied(m.bodies, m.springs, m.springs.len() as int);
    lemma_springs_move(m.bodies, m.springs, m.springs.len() as int);
    let moved = all_integrated(pulled, m.gravity, dt);
    lemma_integration_moves(pulled, m.gravity, dt);
    lemma_clamped_body_is_inside(moved[i], m.arena);
}

/// A frame ends with a free body inside the arena, if the arena is large
/// enough for it, unless a contact with another body or with a wall moved
/// it after the arena stage. Contacts are resolved after the arena and
/// have the last word, so a body that is pushed may end a frame outside
/// and is put back in the next.
pub proof fn lemma_unpushed_body_ends_inside(m: SimModel, dt: int, now: int, i: int)
    requires
        m.state == GameState::Running,
        0 <= i < m.bodies.len(),
        !m.bodies[i].fixed,
        m.arena.fits(m.bodies[i].radius),
        m.stepped(dt, now).bodies[i].pos == m.bodies_after_boundaries(dt)[i].pos,
    ensures
        m.arena.holds(m.stepped(dt, now).bodies[i].pos, m.bodies[i].radius),
{
    lemma_boundaries_keep_bodies_inside(m, dt, i);
}

/// Two free bodies of equal mass keep their total momentum and their
/// common centre through a contact: what the one loses in velocity the
/// other gains, and they are pushed apart by the same distance. This holds
/// whenever no resulting position or velocity is clamped at the end of
/// the number range.
pub proof fn lemma_equal_masses_keep_momentum_and_centre(a: BodyModel, b: BodyModel)
    requires
        !a.fixed,
        !b.fixed,
        a.mass == b.mass,
        resolved(a, b).0.pos.unclamped(),
        resolved(a, b).1.pos.unclamped(),
        resolved(a, b).0.vel.unclamped(),
        resolved(a, b).1.vel.unclamped(),
    ensures
        resolved(a, b).0.vel.x + resolved(a, b).1.vel.x == a.vel.x + b.vel.x,
        resolved(a, b).0.vel.y + resolved(a, b).1.vel.y == a.vel.y + b.vel.y,
        resolved(a, b).0.pos.x + resolved(a, b).1.pos.x == a.pos.x + b.pos.x,
        resolved(a, b).0.pos.y + resolved(a, b).1.pos.y == a.pos.y + b.pos.y,
{
}

/// Whether the bounce along `normal` is computed without clamping: the
/// rebound, the impulse, the changes of velocity and the new velocities
/// all lie strictly inside the number range.
pub open spec fn bounce_is_exact(a: BodyModel, b: BodyModel, normal: V2) -> bool {
    let kick = normal.mul(impulse(a, b, normal));
    &&& unclamped(rebound(a, b, normal))
    &&& unclamped(impulse(a, b, normal))
    &&& kick.mul(inverse_mass(a.mass)).unclamped()
    &&& kick.mul(inverse_mass(b.mass)).unclamped()
    &&& bounced(a, b, normal).0.vel.unclamped()
    &&& bounced(a, b, normal).1.vel.unclamped()
}

/// How far, in raw units, rounding can take the velocities after an
/// elastic bounce of two bodies of mass `m` from their exact values.
pub open spec fn exchange_tolerance(m: int) -> int {
    2 + (2 * inverse_mass(m)) / (SCALE as int)
}

/// Whether `x` is within `tol` of `y`.
pub open spec fn near(x: int, y: int, tol: int) -> bool {
    -tol <= x - y <= tol
}

proof fn lemma_exchange_algebra(
    s: int,
    inv: int,
    n: int,
    j: int,
    along: int,
    kick: int,
    delta: int,
    t: int,
)
    requires
        s > 0,
        inv > 0,
        -s <= n <= s,
        -(2 * inv) < -2 * along * s - (2 * inv) * j < 2 * inv,
        -s < n * j - s * kick < s,
        -s < kick * inv - s * delta < s,
        -s < n * along - s * t < s,
    ensures
        -(2 + (2 * inv) / s) <= delta + t <= 2 + (2 * inv) / s,
{
    let r1 = inv * j + along * s;
    let r2 = s * kick - n * j;
    let r3 = s * delta - kick * inv;
    let r4 = s * t - n * along;
    assert(-inv < r1 < inv) by (nonlinear_arith)
        requires
            r1 == inv * j + along * s,
            -(2 * inv) < -2 * along * s - (2 * inv) * j < 2 * inv,
    ;
    let d = delta + t;
    let ss = s * s;
    let si = s * inv;
    // s * s * d, written out over the four rounding errors
    assert(s * (s * delta) == s * (kick * inv) + s * r3) by (nonlinear_arith)
        requires
            r3 == s * delta - kick * inv,
    ;
    assert(s * (s * t) == s * (n * along) + s * r4) by (nonlinear_arith)
        requires
            r4 == s * t - n * along,
    ;
    assert(s * (kick * inv) == inv * (n * j) + inv * r2) by (nonlinear_arith)
        requires
            r2 == s * kick - n * j,
    ;
    assert(inv * (n * j) + s * (n * along) == n * r1) by (nonlinear_arith)
        requires
            r1 == inv * j + along * s,
    ;
    assert(ss * d == s * (s * delta) + s * (s * t)) by (nonlinear_arith)
        requires
            ss == s * s,
            d == delta + t,
    ;
    assert(ss * d == n * r1 + inv * r2 + s * r3 + s * r4);
    assert(-si <= n * r1 <= si) by (nonlinear_arith)
        requires
            -s <= n <= s,
            -inv < r1 < inv,
            s > 0,
            inv > 0,
            si == s * inv,
    ;
    assert(-si <= inv * r2 <= si) by (nonlinear_arith)
        requires
            -s < r2 < s,
            s > 0,
            inv > 0,
            si == s * inv,
    ;
    assert(-ss < s * r3 < ss) by (nonlinear_arith)
        requires
            -s < r3 < s,
            s > 0,
            ss == s * s,
    ;
    assert(-ss < s * r4 < ss) by (nonlinear_arith)
        requires
            -s < r4 < s,
            s > 0,
            ss == s * s,
    ;
    assert(-(2 * si + 2 * ss) < ss * d < 2 * si + 2 * ss);
    assert(-(2 * inv + 2 * s) < s * d < 2 * inv + 2 * s) by (nonlinear_arith)
        requires
            s > 0,
            ss == s * s,
            si == s * inv,
            -(2 * si + 2 * ss) < ss * d < 2 * si + 2 * ss,
    ;
    let q = (2 * inv) / s;
    assert(2 * inv < s * (q + 1)) by (nonlinear_arith)
        requires
            s > 0,
            q == (2 * inv) / s,
    ;
    assert(-(2 + q) <= d <= 2 + q) by (nonlinear_arith)
        requires
            s > 0,
            2 * inv < s * (q + 1),
            -(2 * inv + 2 * s) < s * d < 2 * inv + 2 * s,
    ;
}

/// In a perfectly elastic bounce, two free bodies of equal mass exchange
/// their velocities along the normal: the first gains the relative normal
/// velocity along the normal and the second loses it, each up to the
/// rounding of [`exchange_tolerance`]. This holds for every normal with
/// components between minus one and one, whenever the bounce is computed
/// without clamping.
pub proof fn lemma_elastic_bounce_exchanges(a: BodyModel, b: BodyModel, normal: V2)
    requires
        !a.fixed,
        !b.fixed,
        a.valid(),
        a.mass == b.mass,
        a.restitution == SCALE,
        b.restitution == SCALE,
        -SCALE <= normal.x <= SCALE,
        -SCALE <= normal.y <= SCALE,
        bounce_is_exact(a, b, normal),
    ensures
        ({
            let swap = normal.mul(closing_speed(a, b, normal));
            let tol = exchange_tolerance(a.mass);
            let after = bounced(a, b, normal);
            &&& near(after.0.vel.x, a.vel.x + swap.x, tol)
            &&& near(after.0.vel.y, a.vel.y + swap.y, tol)
            &&& near(after.1.vel.x, b.vel.x - swap.x, tol)
            &&& near(after.1.vel.y, b.vel.y - swap.y, tol)
        }),
{
    let s = SCALE as int;
    let along = closing_speed(a, b, normal);
    let inv = inverse_mass(a.mass);
    lemma_inverse_mass_positive(a.mass);
    lemma_quot_error(s * s, a.mass);
    assert(inv <= s * s) by {
        assert(quot(s * s, a.mass) <= s * s) by (nonlinear_arith)
            requires
                a.mass >= 1,
                0 <= a.mass * quot(s * s, a.mass) <= s * s,
        ;
    }
    // the rebound is minus twice the closing speed
    let c = rebound(a, b, normal);
    assert(c == -2 * along) by {
        lemma_quot_multiple(-2 * along, s);
        assert((-2 * s) * along == (-2 * along) * s) by (nonlinear_arith);
    }
    // the impulse
    let j = impulse(a, b, normal);
    assert(j == quot(c * s, 2 * inv));
    lemma_quot_error(c * s, 2 * inv);
    assert(c * s == -2 * along * s) by (nonlinear_arith)
        requires
            c == -2 * along,
    ;
    // the kick along each axis never needs clamping
    lemma_product_within(normal.x, j);
    lemma_product_within(normal.y, j);
    lemma_product_within(normal.x, along);
    lemma_product_within(normal.y, along);
    let kick = normal.mul(j);
    let delta = kick.mul(inv);
    let swap = normal.mul(along);
    lemma_quot_error(normal.x * j, s);
    lemma_quot_error(normal.y * j, s);
    lemma_quot_error(kick.x * inv, s);
    lemma_quot_error(kick.y * inv, s);
    lemma_quot_error(normal.x * along, s);
    lemma_quot_error(normal.y * along, s);
    lemma_exchange_algebra(s, inv, normal.x, j, along, kick.x, delta.x, swap.x);
    lemma_exchange_algebra(s, inv, normal.y, j, along, kick.y, delta.y, swap.y);
}

/// The normal of a contact is nearly a unit vector: its squared length is
/// no less than one by more than four raw units in a whole, and no
/// greater by more than two parts in the distance of the centres. This
/// holds whenever the difference of the positions and its length are
/// computed without clamping.
pub proof fn lemma_contact_normal_is_nearly_unit(a: BodyModel, b: BodyModel)
    requires
        b.pos.sub(a.pos).unclamped(),
        unclamped(b.pos.sub(a.pos).length()),
    ensures
        ({
            let s = SCALE as int;
            let n = contact_normal(a, b);
            let nn = n.x * n.x + n.y * n.y;
            let len = b.pos.sub(a.pos).length();
            &&& s * s - 4 * s <= nn
            &&& len * (nn - s * s) <= 2 * (s * s)
        }),
{
    let s = SCALE as int;
    let delta = b.pos.sub(a.pos);
    let len = delta.length();
    assert(delta.x * delta.x >= 0 && delta.y * delta.y >= 0) by (nonlinear_arith);
    lemma_isqrt_exists(delta.norm_sq());
    if len > 0 {
        lemma_unit_direction(delta.x, delta.y, len);
    } else {
        assert(s * s >= 0) by (nonlinear_arith);
    }
}

/// A perfectly elastic collision of two free bodies of equal mass
/// exchanges their velocities along the line of their centres: after it
/// the first has gained the relative normal velocity along the contact
/// normal and the second has lost it, each up to the rounding of
/// [`exchange_tolerance`]; head-on, the two swap their velocities. This
/// holds whenever the difference of the positions and the bounce are
/// computed without clamping.
pub proof fn lemma_elastic_collision_exchanges(a: BodyModel, b: BodyModel)
    requires
        overlapping(a, b),
        !a.fixed,
        !b.fixed,
        a.valid(),
        a.mass == b.mass,
        a.restitution == SCALE,
        b.restitution == SCALE,
        b.pos.sub(a.pos).unclamped(),
        bounce_is_exact(a, b, contact_normal(a, b)),
    ensures
        ({
            let normal = contact_normal(a, b);
            let swap = normal.mul(closing_speed(a, b, normal));
            let tol = exchange_tolerance(a.mass);
            let after = resolved(a, b);
            &&& -SCALE <= normal.x <= SCALE
            &&& -SCALE <= normal.y <= SCALE
            &&& near(after.0.vel.x, a.vel.x + swap.x, tol)
            &&& near(after.0.vel.y, a.vel.y + swap.y, tol)
            &&& near(after.1.vel.x, b.vel.x - swap.x, tol)
            &&& near(after.1.vel.y, b.vel.y - swap.y, tol)
        }),
{
    let normal = contact_normal(a, b);
    lemma_normalized_within_unit(b.pos.sub(a.pos));
    lemma_elastic_bounce_exchanges(a, b, normal);
    let apart = separated(a, b);
    assert(bounced(apart.0, apart.1, normal).0.vel == bounced(a, b, normal).0.vel);
    assert(bounced(apart.0, apart.1, normal).1.vel == bounced(a, b, normal).1.vel);
}

/// Whether the velocities of two bodies along their contact normal,
/// before and after the collision, are computed without clamping.
pub open spec fn normal_velocities_are_exact(a: BodyModel, b: BodyModel) -> bool {
    let n = contact_normal(a, b);
    let after = resolved(a, b);
    &&& a.vel.unclamped()
    &&& b.vel.unclamped()
    &&& b.vel.sub(a.vel).unclamped()
    &&& unclamped(b.pos.sub(a.pos).length())
    &&& unclamped(a.vel.dot(n))
    &&& unclamped(b.vel.dot(n))
    &&& unclamped(after.0.vel.dot(n))
    &&& unclamped(after.1.vel.dot(n))
}

/// How far, in raw units, rounding can take the normal velocities after
/// an elastic collision of two bodies of equal mass from each other's
/// normal velocity before it.
pub open spec fn swap_tolerance(a: BodyModel, b: BodyModel) -> int {
    let n = contact_normal(a, b);
    shift_tolerance(closing_speed(a, b, n), b.pos.sub(a.pos).length()) + 2 * exchange_tolerance(
        a.mass,
    ) + 6
}

/// The rounded dot product with a vector `n` whose components lie between
/// minus one and one, before clamping.
pub open spec fn along(v: V2, n: V2) -> int {
    quot(v.x * n.x, SCALE as int) + quot(v.y * n.y, SCALE as int)
}

proof fn lemma_dot_is_along(v: V2, n: V2)
    requires
        v.unclamped(),
        unclamped(v.dot(n)),
        -SCALE <= n.x <= SCALE,
        -SCALE <= n.y <= SCALE,
    ensures
        v.dot(n) == along(v, n),
{
    lemma_product_within(n.x, v.x);
    lemma_product_within(n.y, v.y);
}

/// A step of `q` along `n` from a velocity `v`, taken with a rounding
/// error of at most `tol` in each component, changes the velocity along
/// `n` by `q`, up to the tolerance of the step and twice that of the
/// error.
proof fn lemma_step_along_normal(v: V2, w: V2, n: V2, nn: int, len: int, q: int, tol: int)
    requires
        -SCALE <= n.x <= SCALE,
        -SCALE <= n.y <= SCALE,
        nn == n.x * n.x + n.y * n.y,
        len > 0,
        SCALE * SCALE - 4 * SCALE <= nn,
        len * (nn - SCALE * SCALE) <= 2 * (SCALE * SCALE),
        near(w.x, v.x + quot(n.x * q, SCALE as int), tol),
        near(w.y, v.y + quot(n.y * q, SCALE as int), tol),
    ensures
        near(along(w, n), along(v, n) + q, shift_tolerance(q, len) + 2 * tol + 2),
{
    let s = SCALE as int;
    let ux = quot(n.x * q, s);
    let uy = quot(n.y * q, s);
    lemma_product_is_stable(n.x, v.x + ux, w.x, tol);
    lemma_product_is_stable(n.y, v.y + uy, w.y, tol);
    lemma_shift_along(n.x, n.y, v.x, v.y, q);
    let target = quot((v.x + ux) * n.x, s) + quot((v.y + uy) * n.y, s);
    lemma_shift_is_nearly_exact(nn, len, q, target - along(v, n));
}

/// After a perfectly elastic collision of two free bodies of equal mass,
/// each moves along the line of their centres as fast as the other did
/// before, up to the rounding of [`swap_tolerance`]; so the two part as
/// fast as they approached. Across that line each keeps its velocity:
/// see [`lemma_elastic_collision_keeps_tangential_velocities`]. Together
/// the two laws say that no speed and no energy is lost. This holds for
/// centres that do not coincide, whenever the collision is computed
/// without clamping.
pub proof fn lemma_elastic_collision_swaps_normal_velocities(a: BodyModel, b: BodyModel)
    requires
        overlapping(a, b),
        b.pos.sub(a.pos).length() > 0,
        !a.fixed,
        !b.fixed,
        a.valid(),
        a.mass == b.mass,
        a.restitution == SCALE,
        b.restitution == SCALE,
        b.pos.sub(a.pos).unclamped(),
        bounce_is_exact(a, b, contact_normal(a, b)),
        normal_velocities_are_exact(a, b),
    ensures
        ({
            let n = contact_normal(a, b);
            let after = resolved(a, b);
            &&& near(after.0.vel.dot(n), b.vel.dot(n), swap_tolerance(a, b))
            &&& near(after.1.vel.dot(n), a.vel.dot(n), swap_tolerance(a, b))
            &&& near(
                after.1.vel.dot(n) - after.0.vel.dot(n),
                -(b.vel.dot(n) - a.vel.dot(n)),
                2 * swap_tolerance(a, b),
            )
        }),
{
    let s = SCALE as int;
    let n = contact_normal(a, b);
    let nn = n.x * n.x + n.y * n.y;
    let len = b.pos.sub(a.pos).length();
    let after = resolved(a, b);
    let tol = exchange_tolerance(a.mass);
    lemma_elastic_collision_exchanges(a, b);
    lemma_contact_normal_is_nearly_unit(a, b);
    let q = closing_speed(a, b, n);
    let rel = b.vel.sub(a.vel);
    // the closing speed is the difference of the normal velocities, nearly
    lemma_dot_is_along(a.vel, n);
    lemma_dot_is_along(b.vel, n);
    lemma_product_within(n.x, rel.x);
    lemma_product_within(n.y, rel.y);
    lemma_product_of_difference(n.x, b.vel.x, a.vel.x);
    lemma_product_of_difference(n.y, b.vel.y, a.vel.y);
    assert(near(q, along(b.vel, n) - along(a.vel, n), 4));
    // each body steps by the closing speed along the normal, one forth, one back
    lemma_product_within(n.x, q);
    lemma_product_within(n.y, q);
    lemma_quot_negated(n.x * q, s);
    lemma_quot_negated(n.y * q, s);
    assert(n.x * (-q) == -(n.x * q) && n.y * (-q) == -(n.y * q)) by (nonlinear_arith);
    lemma_step_along_normal(a.vel, after.0.vel, n, nn, len, q, tol);
    lemma_step_along_normal(b.vel, after.1.vel, n, nn, len, -q, tol);
    assert(shift_tolerance(-q, len) == shift_tolerance(q, len));
    lemma_dot_is_along(after.0.vel, n);
    lemma_dot_is_along(after.1.vel, n);
}

/// The sum of the squared velocities of two bodies, in squared raw units:
/// for two bodies of equal mass, their kinetic energy over half the mass.
pub open spec fn squared_speeds(a: BodyModel, b: BodyModel) -> int {
    a.vel.norm_sq() + b.vel.norm_sq()
}

/// The squared velocity of `b` relative to `a`, in squared raw units.
pub open spec fn squared_relative_speed(a: BodyModel, b: BodyModel) -> int {
    (b.vel.x - a.vel.x) * (b.vel.x - a.vel.x) + (b.vel.y - a.vel.y) * (b.vel.y - a.vel.y)
}

/// The greater size of the two components of the velocity of `b`
/// relative to `a`.
pub open spec fn relative_reach(a: BodyModel, b: BodyModel) -> int {
    let x = if b.vel.x >= a.vel.x {
        b.vel.x - a.vel.x
    } else {
        a.vel.x - b.vel.x
    };
    let y = if b.vel.y >= a.vel.y {
        b.vel.y - a.vel.y
    } else {
        a.vel.y - b.vel.y
    };
    if x >= y {
        x
    } else {
        y
    }
}

/// How far, in squared raw units, rounding can take the sum of the
/// squared velocities of two bodies of equal mass through their elastic
/// collision.
pub open spec fn collision_energy_tolerance(a: BodyModel, b: BodyModel) -> int {
    energy_tolerance(
        closing_speed(a, b, contact_normal(a, b)),
        relative_reach(a, b),
        b.pos.sub(a.pos).length(),
        exchange_tolerance(a.mass),
    )
}

/// A perfectly elastic collision of two free bodies of equal mass loses
/// no energy and no speed, head-on or grazing: the sum of the squared
/// velocities of the two is after it what it was before, up to the
/// rounding of [`collision_energy_tolerance`], and their squared relative
/// velocity up to twice that. This holds for centres that do not
/// coincide, whenever the collision is computed without clamping.
pub proof fn lemma_elastic_collision_keeps_energy(a: BodyModel, b: BodyModel)
    requires
        overlapping(a, b),
        b.pos.sub(a.pos).length() > 0,
        !a.fixed,
        !b.fixed,
        a.valid(),
        a.mass == b.mass,
        a.restitution == SCALE,
        b.restitution == SCALE,
        b.pos.sub(a.pos).unclamped(),
        unclamped(b.pos.sub(a.pos).length()),
        b.vel.sub(a.vel).unclamped(),
        bounce_is_exact(a, b, contact_normal(a, b)),
    ensures
        ({
            let after = resolved(a, b);
            let tol = collision_energy_tolerance(a, b);
            &&& near(squared_speeds(after.0, after.1), squared_speeds(a, b), tol)
            &&& near(
                squared_relative_speed(after.0, after.1),
                squared_relative_speed(a, b),
                2 * tol,
            )
        }),
{
    let s = SCALE as int;
    let n = contact_normal(a, b);
    let nn = n.x * n.x + n.y * n.y;
    let len = b.pos.sub(a.pos).length();
    let after = resolved(a, b);
    let tol = exchange_tolerance(a.mass);
    lemma_elastic_collision_exchanges(a, b);
    lemma_contact_normal_is_nearly_unit(a, b);
    lemma_inverse_mass_positive(a.mass);
    assert(tol >= 2) by {
        let inv = inverse_mass(a.mass);
        assert((2 * inv) / s >= 0) by (nonlinear_arith)
            requires
                inv > 0,
                s > 0,
        ;
    }
    let q = closing_speed(a, b, n);
    assert(unclamped(q)) by {
        lemma_quot_multiple(-2 * q, s);
        assert((-2 * s) * q == (-2 * q) * s) by (nonlinear_arith);
    }
    // the closing speed is the relative velocity along the normal
    let rx = b.vel.x - a.vel.x;
    let ry = b.vel.y - a.vel.y;
    lemma_product_within(n.x, rx);
    lemma_product_within(n.y, ry);
    lemma_quot_error(n.x * rx, s);
    lemma_quot_error(n.y * ry, s);
    assert(q == quot(n.x * rx, s) + quot(n.y * ry, s));
    // what the first body gains in velocity the second loses
    lemma_product_within(n.x, q);
    lemma_product_within(n.y, q);
    let dx = after.0.vel.x - a.vel.x;
    let dy = after.0.vel.y - a.vel.y;
    let apart = separated(a, b);
    assert(after.0.vel == bounced(a, b, n).0.vel && after.1.vel == bounced(a, b, n).1.vel) by {
        assert(bounced(apart.0, apart.1, n).0.vel == bounced(a, b, n).0.vel);
        assert(bounced(apart.0, apart.1, n).1.vel == bounced(a, b, n).1.vel);
    }
    assert(after.1.vel.x == b.vel.x - dx && after.1.vel.y == b.vel.y - dy);
    lemma_exchange_keeps_energy(n.x, n.y, nn, len, q, rx, ry, dx, dy, relative_reach(a, b), tol);
    let gain = 2 * (dx * dx + dy * dy) - 2 * (dx * rx + dy * ry);
    lemma_gain_of_exchange(a.vel.x, b.vel.x, dx);
    lemma_gain_of_exchange(a.vel.y, b.vel.y, dy);
    assert(dx * rx == dx * (b.vel.x - a.vel.x) && dy * ry == dy * (b.vel.y - a.vel.y));
}

/// What the squares of two numbers gain when the first takes `d` from the
/// second, and what the square of their difference gains.
proof fn lemma_gain_of_exchange(a: int, b: int, d: int)
    ensures
        (a + d) * (a + d) + (b - d) * (b - d) - (a * a + b * b) == 2 * (d * d) - 2 * (d * (b - a)),
        ((b - d) - (a + d)) * ((b - d) - (a + d)) - (b - a) * (b - a) == 4 * (d * d) - 4 * (d * (b
            - a)),
{
    assert((a + d) * (a + d) == a * a + 2 * (a * d) + d * d) by (nonlinear_arith);
    assert((b - d) * (b - d) == b * b - 2 * (b * d) + d * d) by (nonlinear_arith);
    assert(d * (b - a) == b * d - a * d) by (nonlinear_arith);
    let r = b - a;
    assert((r - 2 * d) * (r - 2 * d) == r * r - 4 * (d * r) + 4 * (d * d)) by (nonlinear_arith);
}

/// Whether the velocities of two bodies across their contact normal,
/// before and after the collision, are computed without clamping.
pub open spec fn tangential_velocities_are_exact(a: BodyModel, b: BodyModel) -> bool {
    let t = contact_normal(a, b).perp();
    let after = resolved(a, b);
    &&& a.vel.unclamped()
    &&& b.vel.unclamped()
    &&& unclamped(a.vel.dot(t))
    &&& unclamped(b.vel.dot(t))
    &&& unclamped(after.0.vel.dot(t))
    &&& unclamped(after.1.vel.dot(t))
}

/// A step of `q` along `n` from a velocity `v`, taken with a rounding
/// error of at most `tol` in each component, leaves the velocity along
/// the quarter turn `t` of `n` as it was, up to twice the error and seven
/// raw units.
proof fn lemma_step_across_tangent(v: V2, w: V2, n: V2, t: V2, q: int, tol: int)
    requires
        -SCALE <= n.x <= SCALE,
        -SCALE <= n.y <= SCALE,
        t.x == -n.y,
        t.y == n.x,
        near(w.x, v.x + quot(n.x * q, SCALE as int), tol),
        near(w.y, v.y + quot(n.y * q, SCALE as int), tol),
    ensures
        near(along(w, t), along(v, t), 2 * tol + 7),
{
    let s = SCALE as int;
    let ux = quot(n.x * q, s);
    let uy = quot(n.y * q, s);
    lemma_product_is_stable(t.x, v.x + ux, w.x, tol);
    lemma_product_is_stable(t.y, v.y + uy, w.y, tol);
    assert((-t.y) * (-q) == n.x * q && t.x * (-q) == n.y * q) by (nonlinear_arith)
        requires
            t.x == -n.y,
            t.y == n.x,
    ;
    lemma_shift_across(t.x, t.y, v.x, v.y, -q);
}

/// A perfectly elastic collision of two free bodies of equal mass leaves
/// to each its velocity across the line of their centres, up to twice the
/// rounding of [`exchange_tolerance`] and seven raw units: the collision
/// acts along that line alone, so a grazing contact turns the bodies
/// without slowing them. This holds whenever the collision is computed
/// without clamping.
pub proof fn lemma_elastic_collision_keeps_tangential_velocities(a: BodyModel, b: BodyModel)
    requires
        overlapping(a, b),
        !a.fixed,
        !b.fixed,
        a.valid(),
        a.mass == b.mass,
        a.restitution == SCALE,
        b.restitution == SCALE,
        b.pos.sub(a.pos).unclamped(),
        bounce_is_exact(a, b, contact_normal(a, b)),
        tangential_velocities_are_exact(a, b),
    ensures
        ({
            let t = contact_normal(a, b).perp();
            let after = resolved(a, b);
            let tol = 2 * exchange_tolerance(a.mass) + 7;
            &&& near(after.0.vel.dot(t), a.vel.dot(t), tol)
            &&& near(after.1.vel.dot(t), b.vel.dot(t), tol)
        }),
{
    let s = SCALE as int;
    let n = contact_normal(a, b);
    let t = n.perp();
    let after = resolved(a, b);
    let tol = exchange_tolerance(a.mass);
    lemma_elastic_collision_exchanges(a, b);
    let q = closing_speed(a, b, n);
    lemma_inverse_mass_positive(a.mass);
    assert(unclamped(q)) by {
        lemma_quot_multiple(-2 * q, s);
        assert((-2 * s) * q == (-2 * q) * s) by (nonlinear_arith);
    }
    lemma_product_within(n.x, q);
    lemma_product_within(n.y, q);
    lemma_quot_negated(n.x * q, s);
    lemma_quot_negated(n.y * q, s);
    assert(n.x * (-q) == -(n.x * q) && n.y * (-q) == -(n.y * q)) by (nonlinear_arith);
    lemma_step_across_tangent(a.vel, after.0.vel, n, t, q, tol);
    lemma_step_across_tangent(b.vel, after.1.vel, n, t, -q, tol);
    lemma_dot_is_along(a.vel, t);
    lemma_dot_is_along(b.vel, t);
    lemma_dot_is_along(after.0.vel, t);
    lemma_dot_is_along(after.1.vel, t);
}

/// A frame in which one pair of bodies alone is in contact, and in which
/// no wall touches the two afterwards, leaves the two as the collision
/// leaves them: what holds of a collision of two bodies holds of the
/// frame, however many other bodies there are.
pub proof fn lemma_frame_with_one_contact(m: SimModel, dt: int, now: int, i: int, j: int)
    requires
        m.state == GameState::Running,
        is_lone_contact(Contacts { bodies: m.bodies_after_boundaries(dt), goal_hit: false }, i, j),
        is_clear_of(
            resolved(m.bodies_after_boundaries(dt)[i], m.bodies_after_boundaries(dt)[j]).0,
            m.walls,
        ),
        is_clear_of(
            resolved(m.bodies_after_boundaries(dt)[i], m.bodies_after_boundaries(dt)[j]).1,
            m.walls,
        ),
    ensures
        m.stepped(dt, now).bodies[i] == resolved(
            m.bodies_after_boundaries(dt)[i],
            m.bodies_after_boundaries(dt)[j],
        ).0,
        m.stepped(dt, now).bodies[j] == resolved(
            m.bodies_after_boundaries(dt)[i],
            m.bodies_after_boundaries(dt)[j],
        ).1,
{
    let kept = m.bodies_after_boundaries(dt);
    lemma_lone_contact_is_resolved(kept, i, j);
    let r = resolved(kept[i], kept[j]);
    lemma_clear_body_passes(r.0, m.walls, m.walls.len() as int);
    lemma_clear_body_passes(r.1, m.walls, m.walls.len() as int);
}

/// In a frame in which two free bodies of equal mass and perfect
/// elasticity alone are in contact, whether head-on or grazing, the two
/// exchange their velocities along the line of their centres: each ends
/// the frame with the velocity it had after the arena stage, changed by
/// the relative normal velocity along the contact normal, up to the
/// rounding of [`exchange_tolerance`]. This holds whenever the collision
/// is computed without clamping and no wall touches the two.
pub proof fn lemma_elastic_contact_in_a_frame(m: SimModel, dt: int, now: int, i: int, j: int)
    requires
        m.state == GameState::Running,
        is_lone_contact(Contacts { bodies: m.bodies_after_boundaries(dt), goal_hit: false }, i, j),
        is_clear_of(
            resolved(m.bodies_after_boundaries(dt)[i], m.bodies_after_boundaries(dt)[j]).0,
            m.walls,
        ),
        is_clear_of(
            resolved(m.bodies_after_boundaries(dt)[i], m.bodies_after_boundaries(dt)[j]).1,
            m.walls,
        ),
        ({
            let a = m.bodies_after_boundaries(dt)[i];
            let b = m.bodies_after_boundaries(dt)[j];
            &&& overlapping(a, b)
            &&& !a.fixed
            &&& !b.fixed
            &&& a.valid()
            &&& a.mass == b.mass
            &&& a.restitution == SCALE
            &&& b.restitution == SCALE
            &&& b.pos.sub(a.pos).unclamped()
            &&& bounce_is_exact(a, b, contact_normal(a, b))
        }),
    ensures
        ({
            let a = m.bodies_after_boundaries(dt)[i];
            let b = m.bodies_after_boundaries(dt)[j];
            let normal = contact_normal(a, b);
            let swap = normal.mul(closing_speed(a, b, normal));
            let tol = exchange_tolerance(a.mass);
            let after = m.stepped(dt, now).bodies;
            &&& near(after[i].vel.x, a.vel.x + swap.x, tol)
            &&& near(after[i].vel.y, a.vel.y + swap.y, tol)
            &&& near(after[j].vel.x, b.vel.x - swap.x, tol)
            &&& near(after[j].vel.y, b.vel.y - swap.y, tol)
        }),
{
    lemma_frame_with_one_contact(m, dt, now, i, j);
    lemma_elastic_collision_exchanges(
        m.bodies_after_boundaries(dt)[i],
        m.bodies_after_boundaries(dt)[j],
    );
}

/// A frame in which one wall alone touches a body, as the walls act on it
/// in order, leaves the body as that wall leaves it: what holds of a body
/// and a wall holds of the frame, however many other walls there are.
pub proof fn lemma_frame_with_one_wall_contact(m: SimModel, dt: int, now: int, i: int, k: int)
    requires
        m.state == GameState::Running,
        0 <= i < m.bodies.len(),
        is_lone_wall(m.bodies_after_contacts(dt)[i], m.walls, k),
    ensures
        m.bodies_after_contacts(dt).len() == m.bodies.len(),
        m.stepped(dt, now).bodies[i] == deflected(m.bodies_after_contacts(dt)[i], m.walls[k]),
{
    lemma_step_moves_bodies(m, dt, now);
    let kept = m.bodies_after_boundaries(dt);
    lemma_pairs_move(kept);
    lemma_walls_move(m.bodies_after_contacts(dt), m.walls);
    lemma_lone_wall_acts(m.bodies_after_contacts(dt)[i], m.walls, k, m.walls.len() as int);
}

/// Whether the effect of the wall on the body is computed without
/// clamping: the span of the wall and its length, the radius, and the
/// position of the body, before and after, as seen from the start of the
/// wall, all lie strictly inside the number range.
pub open spec fn push_is_exact(b: BodyModel, w: WallModel) -> bool {
    let after = deflected(b, w);
    &&& w.span().unclamped()
    &&& unclamped(w.span().length())
    &&& unclamped(b.radius)
    &&& b.pos.sub(w.start).unclamped()
    &&& after.pos.unclamped()
    &&& after.pos.sub(w.start).unclamped()
    &&& unclamped(wall_distance(after, w))
}

/// The facts about a wall that its laws rest on: its direction and normal
/// have components between minus one and one and nearly unit length.
proof fn lemma_wall_frame(w: WallModel)
    requires
        w.valid(),
        w.span().unclamped(),
        unclamped(w.span().length()),
    ensures
        ({
            let s = SCALE as int;
            let n = wall_normal(w);
            let nn = n.x * n.x + n.y * n.y;
            let len = w.span().length();
            let dir = wall_direction(w);
            &&& len > 0
            &&& n.x == -dir.y
            &&& n.y == dir.x
            &&& -s <= n.x <= s
            &&& -s <= n.y <= s
            &&& s * s - 4 * s <= nn
            &&& len * (nn - s * s) <= 2 * (s * s)
        }),
{
    let span = w.span();
    let len = span.length();
    assert(span.x * span.x >= 0 && span.y * span.y >= 0) by (nonlinear_arith);
    lemma_isqrt_exists(span.norm_sq());
    lemma_unit_direction(span.x, span.y, len);
    let n = wall_normal(w);
    let dx = quot(span.x * SCALE, len);
    let dy = quot(span.y * SCALE, len);
    assert(n.x == -dy && n.y == dx);
    assert(n.x * n.x == dy * dy) by (nonlinear_arith)
        requires
            n.x == -dy,
    ;
}

/// A wall leaves a body that touched it one radius from its line: after
/// the push the signed distance of the centre is the radius, on the side
/// the body was on, up to the rounding of [`shift_tolerance`] for the
/// depth of the push. This holds whenever the push is computed without
/// clamping.
pub proof fn lemma_wall_leaves_body_one_radius_away(b: BodyModel, w: WallModel)
    requires
        !b.fixed,
        w.valid(),
        touches(b, w),
        push_is_exact(b, w),
    ensures
        ({
            let dist = wall_distance(b, w);
            let depth = b.radius - abs_raw(dist);
            let side = if dist < 0 {
                -b.radius
            } else {
                b.radius
            };
            &&& 0 <= depth <= b.radius
            &&& near(
                wall_distance(deflected(b, w), w),
                side,
                shift_tolerance(depth, w.span().length()),
            )
        }),
{
    let s = SCALE as int;
    let len = w.span().length();
    let n = wall_normal(w);
    let nn = n.x * n.x + n.y * n.y;
    lemma_wall_frame(w);
    let t = b.pos.sub(w.start);
    let dist = wall_distance(b, w);
    lemma_product_within(n.x, t.x);
    lemma_product_within(n.y, t.y);
    let depth = b.radius - abs_raw(dist);
    let push = if dist < 0 {
        -depth
    } else {
        depth
    };
    lemma_product_within(n.x, push);
    lemma_product_within(n.y, push);
    let after = deflected(b, w);
    let u = n.mul(push);
    assert(after.pos == b.pos.add(u));
    let t2 = after.pos.sub(w.start);
    assert(t2.x == t.x + u.x && t2.y == t.y + u.y);
    lemma_product_within(n.x, t2.x);
    lemma_product_within(n.y, t2.y);
    let dist2 = wall_distance(after, w);
    lemma_shift_along(n.x, n.y, t.x, t.y, push);
    assert(dist == quot(t.x * n.x, s) + quot(t.y * n.y, s));
    assert(dist2 == quot((t.x + u.x) * n.x, s) + quot((t.y + u.y) * n.y, s));
    lemma_shift_is_nearly_exact(nn, len, push, dist2 - dist);
}

/// Whether the place and the velocity of the body along the wall, before
/// and after the wall has acted, are computed without clamping.
pub open spec fn slide_is_exact(b: BodyModel, w: WallModel) -> bool {
    let dir = wall_direction(w);
    let after = deflected(b, w);
    let vn = b.vel.dot(wall_normal(w));
    &&& push_is_exact(b, w)
    &&& b.vel.unclamped()
    &&& after.vel.unclamped()
    &&& unclamped(mul_raw(vn, add_raw(SCALE as int, b.restitution)))
    &&& unclamped(along_wall(after, w))
    &&& unclamped(b.vel.dot(dir))
    &&& unclamped(after.vel.dot(dir))
}

/// A wall acts across itself only: the place of a body along the wall,
/// and its velocity along the wall, are after the push and the reflection
/// what they were before, up to five raw units of rounding. This holds
/// whenever they are computed without clamping.
pub proof fn lemma_wall_keeps_motion_along_it(b: BodyModel, w: WallModel)
    requires
        !b.fixed,
        w.valid(),
        0 <= b.restitution <= SCALE,
        touches(b, w),
        slide_is_exact(b, w),
    ensures
        near(along_wall(deflected(b, w), w), along_wall(b, w), 5),
        near(deflected(b, w).vel.dot(wall_direction(w)), b.vel.dot(wall_direction(w)), 5),
{
    let s = SCALE as int;
    let n = wall_normal(w);
    let dir = wall_direction(w);
    lemma_wall_frame(w);
    let after = deflected(b, w);
    // the place along the wall
    let t = b.pos.sub(w.start);
    let dist = wall_distance(b, w);
    lemma_product_within(n.x, t.x);
    lemma_product_within(n.y, t.y);
    let depth = b.radius - abs_raw(dist);
    let push = if dist < 0 {
        -depth
    } else {
        depth
    };
    lemma_product_within(n.x, push);
    lemma_product_within(n.y, push);
    let u = n.mul(push);
    assert(after.pos == b.pos.add(u));
    let t2 = after.pos.sub(w.start);
    assert(t2.x == t.x + u.x && t2.y == t.y + u.y);
    lemma_product_within(dir.x, t.x);
    lemma_product_within(dir.y, t.y);
    lemma_product_within(dir.x, t2.x);
    lemma_product_within(dir.y, t2.y);
    lemma_shift_across(dir.x, dir.y, t.x, t.y, push);
    // the velocity along the wall
    let v = b.vel;
    let vn = v.dot(n);
    if approaching(vn, dist) {
        let change = mul_raw(vn, s + b.restitution);
        lemma_product_within(n.x, change);
        lemma_product_within(n.y, change);
        lemma_quot_negated(n.x * change, s);
        lemma_quot_negated(n.y * change, s);
        assert(n.x * (-change) == -(n.x * change) && n.y * (-change) == -(n.y * change))
            by (nonlinear_arith);
        let v2 = after.vel;
        assert(v2.x == v.x + quot(n.x * (-change), s));
        assert(v2.y == v.y + quot(n.y * (-change), s));
        lemma_product_within(dir.x, v.x);
        lemma_product_within(dir.y, v.y);
        lemma_product_within(dir.x, v2.x);
        lemma_product_within(dir.y, v2.y);
        lemma_shift_across(dir.x, dir.y, v.x, v.y, -change);
    }
}

/// Whether the reflection of the body's velocity off the wall is computed
/// without clamping.
pub open spec fn reflection_is_exact(b: BodyModel, w: WallModel) -> bool {
    let n = wall_normal(w);
    let vn = b.vel.dot(n);
    &&& w.span().unclamped()
    &&& unclamped(w.span().length())
    &&& b.vel.unclamped()
    &&& unclamped(vn)
    &&& unclamped(mul_raw(vn, add_raw(SCALE as int, b.restitution)))
    &&& deflected(b, w).vel.unclamped()
    &&& unclamped(deflected(b, w).vel.dot(n))
}

/// A wall reflects a body that approaches it: the velocity along the wall
/// normal changes sign and is scaled by the restitution of the body, up to
/// the rounding of [`shift_tolerance`] for the change of velocity. This
/// holds whenever the reflection is computed without clamping.
pub proof fn lemma_wall_reflects_normal_velocity(b: BodyModel, w: WallModel)
    requires
        !b.fixed,
        w.valid(),
        0 <= b.restitution <= SCALE,
        touches(b, w),
        approaching(b.vel.dot(wall_normal(w)), wall_distance(b, w)),
        reflection_is_exact(b, w),
    ensures
        ({
            let n = wall_normal(w);
            let vn = b.vel.dot(n);
            let change = mul_raw(vn, add_raw(SCALE as int, b.restitution));
            near(
                deflected(b, w).vel.dot(n),
                -mul_raw(vn, b.restitution),
                shift_tolerance(change, w.span().length()),
            )
        }),
{
    let s = SCALE as int;
    let len = w.span().length();
    let n = wall_normal(w);
    let nn = n.x * n.x + n.y * n.y;
    lemma_wall_frame(w);
    let v = b.vel;
    let vn = v.dot(n);
    lemma_product_within(n.x, v.x);
    lemma_product_within(n.y, v.y);
    let e = b.restitution;
    let change = mul_raw(vn, s + e);
    // the change is the normal velocity and its restitution-scaled part
    assert(change == vn + mul_raw(vn, e)) by {
        assert(vn * (s + e) == vn * s + vn * e) by (nonlinear_arith);
        assert((vn >= 0 && vn * e >= 0) || (vn <= 0 && vn * e <= 0)) by (nonlinear_arith)
            requires
                e >= 0,
        ;
        lemma_quot_add_multiple(vn, vn * e, s);
        lemma_product_within(e, vn);
        assert(e * vn == vn * e) by (nonlinear_arith);
    }
    lemma_product_within(n.x, change);
    lemma_product_within(n.y, change);
    let u = n.mul(change);
    let after = deflected(b, w);
    assert(after.vel == v.sub(u));
    // subtracting the kick is adding the kick of the negated change
    lemma_quot_negated(n.x * change, s);
    lemma_quot_negated(n.y * change, s);
    assert(n.x * (-change) == -(n.x * change) && n.y * (-change) == -(n.y * change))
        by (nonlinear_arith);
    let v2 = after.vel;
    assert(v2.x == v.x + quot(n.x * (-change), s) && v2.y == v.y + quot(n.y * (-change), s));
    lemma_product_within(n.x, v2.x);
    lemma_product_within(n.y, v2.y);
    let vn2 = v2.dot(n);
    lemma_shift_along(n.x, n.y, v.x, v.y, -change);
    assert(vn == quot(v.x * n.x, s) + quot(v.y * n.y, s));
    lemma_shift_is_nearly_exact(nn, len, -change, vn2 - vn);
    assert(shift_tolerance(-change, len) == shift_tolerance(change, len));
}

/// The player's own ball never wins by touching the goal, and neither
/// does a fixed body.
pub proof fn lemma_direct_hit_does_not_win(a: BodyModel, b: BodyModel)
    requires
        a.is_player || a.fixed,
        !a.is_goal,
        b.is_goal,
    ensures
        !triggers_goal(a, b),
        !triggers_goal(b, a),
{
}

/// Where no two bodies could win by touching, no frame wins: a scenario
/// whose only free body besides the goal is the player's ball stays
/// running, whatever touches what.
pub proof fn lemma_no_win_without_a_scoring_pair(m: SimModel, dt: int, now: int)
    requires
        no_pair_scores(m.bodies),
    ensures
        m.stepped(dt, now).state == m.state,
        m.stepped(dt, now).won_at == m.won_at,
        no_pair_scores(m.stepped(dt, now).bodies),
{
    lemma_step_moves_bodies(m, dt, now);
    lemma_moving_keeps_scores(m.stepped(dt, now).bodies, m.bodies);
    if m.state == GameState::Running {
        let pulled = springs_applied(m.bodies, m.springs, m.springs.len() as int);
        let moved = all_integrated(pulled, m.gravity, dt);
        let kept = all_contained(moved, m.arena);
        assert(kept == m.bodies_after_boundaries(dt));
        lemma_springs_move(m.bodies, m.springs, m.springs.len() as int);
        lemma_integration_moves(pulled, m.gravity, dt);
        lemma_containment_moves(moved, m.arena);
        lemma_moved_twice(moved, pulled, m.bodies);
        lemma_moved_twice(kept, moved, m.bodies);
        lemma_moving_keeps_scores(kept, m.bodies);
        lemma_rows_without_score(Contacts { bodies: kept, goal_hit: false }, kept.len() as int);
    }
}

/// Where no two bodies could win by touching, the game is never won,
/// however many frames pass.
pub proof fn lemma_never_won_without_a_scoring_pair(m: SimModel, frames: Seq<Frame>)
    requires
        no_pair_scores(m.bodies),
    ensures
        run(m, frames).state == m.state,
        run(m, frames).won_at == m.won_at,
        no_pair_scores(run(m, frames).bodies),
    decreases frames.len(),
{
    if frames.len() > 0 {
        lemma_never_won_without_a_scoring_pair(m, frames.drop_last());
        lemma_no_win_without_a_scoring_pair(
            run(m, frames.drop_last()),
            frames.last().dt,
            frames.last().now,
        );
    }
}

/// A free body that is not the player wins by touching the goal, on
/// whichever side of the pair it stands.
pub proof fn lemma_indirect_hit_wins(a: BodyModel, b: BodyModel)
    requires
        !a.is_player,
        !a.fixed,
        !a.is_goal,
        b.is_goal,
    ensures
        triggers_goal(a, b),
        triggers_goal(b, a),
{
}

/// A frame wins if, after the arena stage, the first two bodies overlap
/// and one of them is the goal and the other a free body that is not the
/// player: the first pair is met before any contact has moved it.
pub proof fn lemma_first_contact_wins(m: SimModel, dt: int, now: int)
    requires
        m.state == GameState::Running,
        m.bodies.len() >= 2,
        overlapping(m.bodies_after_boundaries(dt)[0], m.bodies_after_boundaries(dt)[1]),
        triggers_goal(m.bodies[0], m.bodies[1]),
    ensures
        m.stepped(dt, now).state == GameState::Won,
        m.stepped(dt, now).won_at == Some(now),
{
    let pulled = springs_applied(m.bodies, m.springs, m.springs.len() as int);
    let moved = all_integrated(pulled, m.gravity, dt);
    let kept = all_contained(moved, m.arena);
    assert(kept == m.bodies_after_boundaries(dt));
    lemma_springs_move(m.bodies, m.springs, m.springs.len() as int);
    lemma_integration_moves(pulled, m.gravity, dt);
    lemma_containment_moves(moved, m.arena);
    lemma_moved_twice(moved, pulled, m.bodies);
    lemma_moved_twice(kept, moved, m.bodies);
    let start = Contacts { bodies: kept, goal_hit: false };
    let n = kept.len() as int;
    assert(rows_handled(start, 0) == start);
    assert(row_handled(start, 0, 1) == start);
    lemma_row_wins(start, 0, 1, n);
    assert(rows_handled(start, 1) == row_handled(start, 0, n));
    lemma_rows_keep_win(start, 1, n);
}

/// A frame of a running game wins exactly if some pair of bodies, as the
/// pairwise pass meets it, overlaps and has one goal and one free body
/// that is not the player. So no frame wins in which every contact of a
/// goal is with the player, a fixed body or another goal, however many
/// other bodies there are, and wherever they are.
pub proof fn lemma_frame_wins_by_a_scoring_contact_only(m: SimModel, dt: int, now: int)
    requires
        m.state == GameState::Running,
    ensures
        m.stepped(dt, now).state == GameState::Won <==> exists|i: int, j: int|
            0 <= i < j < m.bodies.len() && #[trigger] scores_when_met(
                Contacts { bodies: m.bodies_after_boundaries(dt), goal_hit: false },
                i,
                j,
            ),
        m.stepped(dt, now).state != GameState::Won ==> m.stepped(dt, now).state
            == GameState::Running && m.stepped(dt, now).won_at == m.won_at,
{
    lemma_step_moves_bodies(m, dt, now);
    let kept = m.bodies_after_boundaries(dt);
    let start = Contacts { bodies: kept, goal_hit: false };
    lemma_pairs_move(kept);
    let pulled = springs_applied(m.bodies, m.springs, m.springs.len() as int);
    let moved = all_integrated(pulled, m.gravity, dt);
    lemma_springs_move(m.bodies, m.springs, m.springs.len() as int);
    lemma_integration_moves(pulled, m.gravity, dt);
    lemma_containment_moves(moved, m.arena);
    assert(kept.len() == m.bodies.len());
    if m.stepped(dt, now).state == GameState::Won {
        let pair = lemma_win_has_a_cause(start, kept.len() as int);
        assert(scores_when_met(start, pair.0, pair.1));
    }
    if exists|i: int, j: int|
        0 <= i < j < m.bodies.len() && #[trigger] scores_when_met(start, i, j) {
        let (i, j) = choose|i: int, j: int|
            0 <= i < j < m.bodies.len() && #[trigger] scores_when_met(start, i, j);
        lemma_cause_wins(start, i, j, kept.len() as int);
    }
}

/// No frame wins in which the goal is touched by the player's ball, by
/// fixed bodies and by other goals alone: where every pair that overlaps
/// as the pairwise pass meets it is a pair that cannot win, the game runs
/// on and no win is recorded, whatever other bodies there are.
pub proof fn lemma_no_win_without_a_scoring_contact(m: SimModel, dt: int, now: int)
    requires
        m.state == GameState::Running,
        forall|i: int, j: int|
            0 <= i < j < m.bodies.len() && #[trigger] overlaps_when_met(
                Contacts { bodies: m.bodies_after_boundaries(dt), goal_hit: false },
                i,
                j,
            ) ==> !triggers_goal(m.bodies[i], m.bodies[j]),
    ensures
        m.stepped(dt, now).state == GameState::Running,
        m.stepped(dt, now).won_at == m.won_at,
{
    lemma_frame_wins_by_a_scoring_contact_only(m, dt, now);
    let kept = m.bodies_after_boundaries(dt);
    let start = Contacts { bodies: kept, goal_hit: false };
    let pulled = springs_applied(m.bodies, m.springs, m.springs.len() as int);
    let moved = all_integrated(pulled, m.gravity, dt);
    lemma_springs_move(m.bodies, m.springs, m.springs.len() as int);
    lemma_integration_moves(pulled, m.gravity, dt);
    lemma_containment_moves(moved, m.arena);
    lemma_moved_twice(moved, pulled, m.bodies);
    lemma_moved_twice(kept, moved, m.bodies);
    assert forall|i: int, j: int| 0 <= i < j < m.bodies.len() implies !#[trigger] scores_when_met(
        start,
        i,
        j,
    ) by {
        lemma_met_pair_keeps_roles(start, i, j);
        if overlaps_when_met(start, i, j) {
            assert(!triggers_goal(m.bodies[i], m.bodies[j]));
        }
    }
}

/// A won game is frozen: further frames change nothing, so the win is
/// recorded once and its time stays.
pub proof fn lemma_won_game_is_frozen(m: SimModel, frames: Seq<Frame>)
    requires
        m.state == GameState::Won,
    ensures
        run(m, frames) == m,
    decreases frames.len(),
{
    if frames.len() > 0 {
        lemma_won_game_is_frozen(m, frames.drop_last());
    }
}

/// A frame leaves a running game running or won, and records the time of
/// the frame exactly when it wins.
pub proof fn lemma_win_is_recorded(m: SimModel, dt: int, now: int)
    requires
        m.state == GameState::Running,
    ensures
        m.stepped(dt, now).state == GameState::Running || m.stepped(dt, now).state
            == GameState::Won,
        m.stepped(dt, now).state == GameState::Won ==> m.stepped(dt, now).won_at == Some(now),
        m.stepped(dt, now).state == GameState::Running ==> m.stepped(dt, now).won_at == m.won_at,
{
}

/// A puzzle is what a reset replays: a reset right after a puzzle was set
/// up changes nothing, whichever number was asked for.
pub proof fn lemma_reset_replays_the_set_up(m: SimModel, number: int)
    ensures
        m.set_up(number).reset() == m.set_up(number),
        m.started(number).reset() == m.started(number),
{
    lemma_levels_are_recorded_as_set_up(number);
    let a = m.set_up(number);
    assert(a.reset().bodies =~= a.bodies) by {
        assert forall|i: int| 0 <= i < a.bodies.len() implies a.bodies[i].restored()
            == a.bodies[i] by {
            assert(a.bodies[i].at_start());
        }
    }
    let b = m.started(number);
    assert(b.bodies == a.bodies);
    assert(b.reset().bodies =~= b.bodies);
}

/// Whether an event is one of the pointer or of the window, as against a
/// command: a press, a move or a release of the pointer, a new extent of
/// the arena, a new gravity, or the clearing of the walls that were drawn.
pub open spec fn is_quiet(e: EventModel) -> bool {
    ||| e is Press
    ||| e is Hover
    ||| e is Release
    ||| e is Resize
    ||| e is SetGravity
    ||| e is ClearUserWalls
}

/// Whether all the events are quiet.
pub open spec fn all_quiet(events: Seq<EventModel>) -> bool {
    forall|k: int| 0 <= k < events.len() ==> is_quiet(#[trigger] events[k])
}

/// Whether `after` differs from `before` at most by what the pointer may
/// do to a game that is not running: bodies, springs, level, state and
/// win are the same, and so are the walls of the puzzle.
pub open spec fn rests(after: SimModel, before: SimModel) -> bool {
    &&& after.bodies == before.bodies
    &&& after.springs == before.springs
    &&& after.level == before.level
    &&& after.state == before.state
    &&& after.won_at == before.won_at
    &&& after.max_walls == before.max_walls
    &&& after.walls.filter(part_of_puzzle()) == before.walls.filter(part_of_puzzle())
}

/// Adding a wall that the player drew leaves the walls of the puzzle.
pub proof fn lemma_drawn_wall_is_no_puzzle_wall(walls: Seq<WallModel>, w: WallModel)
    requires
        w.is_user_placed,
    ensures
        walls.push(w).filter(part_of_puzzle()) == walls.filter(part_of_puzzle()),
{
    reveal(Seq::filter);
    assert(walls.push(w).drop_last() =~= walls);
}

/// Clearing the drawn walls leaves the walls of the puzzle.
pub proof fn lemma_clearing_keeps_puzzle_walls(walls: Seq<WallModel>)
    ensures
        walls.filter(part_of_puzzle()).filter(part_of_puzzle()) == walls.filter(part_of_puzzle()),
    decreases walls.len(),
{
    reveal(Seq::filter);
    if walls.len() > 0 {
        lemma_clearing_keeps_puzzle_walls(walls.drop_last());
        let rest = walls.drop_last().filter(part_of_puzzle());
        if !walls.last().is_user_placed {
            assert(rest.push(walls.last()).drop_last() =~= rest);
        }
    }
}

/// While a game is not running, no event of the pointer or of the window
/// moves a body: a held body rests, a release flings nothing, and of the
/// walls only those that the player drew come and go.
pub proof fn lemma_quiet_event_moves_nothing(m: SimModel, e: EventModel)
    requires
        m.state != GameState::Running,
        is_quiet(e),
    ensures
        rests(m.handled(e), m),
{
    match e {
        EventModel::Release(p) => {
            let g = m.let_go(p);
            match g.placing_wall {
                Some(start) => {
                    lemma_drawn_wall_is_no_puzzle_wall(
                        g.walls,
                        WallModel { start, end: p, is_user_placed: true },
                    );
                },
                None => {},
            }
        },
        EventModel::ClearUserWalls => {
            lemma_clearing_keeps_puzzle_walls(m.walls);
        },
        _ => {},
    }
}

/// While a game is not running, no sequence of events of the pointer or
/// of the window moves a body.
pub proof fn lemma_quiet_events_move_nothing(m: SimModel, events: Seq<EventModel>, k: int)
    requires
        m.state != GameState::Running,
        all_quiet(events),
        k <= events.len(),
    ensures
        rests(m.handled_all(events, k), m),
    decreases k,
{
    if k > 0 {
        lemma_quiet_events_move_nothing(m, events, k - 1);
        lemma_quiet_event_moves_nothing(m.handled_all(events, k - 1), events[k - 1]);
    }
}

/// Bodies are static while a game is planned: a frame whose events are of
/// the pointer and the window alone, whatever time has passed, leaves the
/// game planned and every body exactly as it was, and changes the walls
/// only by those that the player drew or cleared.
pub proof fn lemma_planned_game_rests(m: SimModel, events: Seq<EventModel>, elapsed: int, now: int)
    requires
        m.state == GameState::Planning,
        m.won_at is None,
        all_quiet(events),
    ensures
        rests(m.framed(events, elapsed, now), m),
        m.framed(events, elapsed, now).state == GameState::Planning,
{
    lemma_quiet_events_move_nothing(m, events, events.len() as int);
}

/// Reset puts every body at exactly its recorded initial position and
/// velocity.
pub proof fn lemma_reset_restores(m: SimModel, i: int)
    requires
        0 <= i < m.bodies.len(),
    ensures
        m.reset().bodies.len() == m.bodies.len(),
        m.reset().bodies[i].pos == m.bodies[i].initial_pos,
        m.reset().bodies[i].vel == m.bodies[i].initial_vel,
        m.reset().bodies[i].acc == V2::zero(),
        m.reset().state == GameState::Planning,
        m.reset().won_at is None,
{
}

/// Resetting twice is the same as resetting once.
pub proof fn lemma_reset_is_idempotent(m: SimModel)
    ensures
        m.reset().reset() == m.reset(),
{
    assert(m.reset().reset().bodies =~= m.reset().bodies);
}

/// Reset forgets the history: after any frames of physics, reset gives
/// what it would have given before them.
pub proof fn lemma_reset_forgets_history(m: SimModel, frames: Seq<Frame>)
    ensures
        run(m, frames).reset() == m.reset(),
{
    lemma_run_moves_bodies(m, frames);
    assert(run(m, frames).reset().bodies =~= m.reset().bodies);
}

} // verus!
