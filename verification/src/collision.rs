//! Detection and resolution of overlapping pairs of bodies.
//!
//! Every overlapping pair is resolved, whether the two bodies approach or
//! already separate: the outcome of a contact then depends on the overlap
//! alone, which keeps puzzles repeatable.

use vstd::prelude::*;
use crate::fixed::{Fixed, SCALE, add_raw, sub_raw, neg_raw, mul_raw, div_raw, half_raw, min_raw};
use crate::vec2::{Vec2, V2};
use crate::body::{Body, BodyModel, MAX_MASS, models, all_valid, moved_from, all_moved_from};

verus! {

/// Whether the two disks overlap: the distance of the centres is less than
/// the sum of the radii.
pub open spec fn overlapping(a: BodyModel, b: BodyModel) -> bool {
    b.pos.sub(a.pos).length() < add_raw(a.radius, b.radius)
}

/// Whether a contact of the two bodies wins the scenario: exactly one of
/// them is a goal, and the other is neither the player nor fixed.
pub open spec fn triggers_goal(a: BodyModel, b: BodyModel) -> bool {
    ||| a.is_goal && !b.is_goal && !b.is_player && !b.fixed
    ||| b.is_goal && !a.is_goal && !a.is_player && !a.fixed
}

/// The normal of a contact: the unit vector from `a` toward `b`, or the
/// `x` axis when the two centres coincide.
pub open spec fn contact_normal(a: BodyModel, b: BodyModel) -> V2 {
    let delta = b.pos.sub(a.pos);
    if delta.length() == 0 {
        V2 { x: SCALE as int, y: 0 }
    } else {
        delta.normalized()
    }
}

/// The reciprocal of a mass.
pub open spec fn inverse_mass(m: int) -> int {
    div_raw(SCALE as int, m)
}

/// The two bodies pushed apart along the normal by half the overlap, each
/// weighted by the other's share of the total mass. A fixed body is not
/// displaced.
pub open spec fn separated(a: BodyModel, b: BodyModel) -> (BodyModel, BodyModel) {
    let delta = b.pos.sub(a.pos);
    let overlap = sub_raw(add_raw(a.radius, b.radius), delta.length());
    let push = contact_normal(a, b).mul(half_raw(overlap));
    let total = add_raw(a.mass, b.mass);
    (
        if a.fixed {
            a
        } else {
            BodyModel { pos: a.pos.sub(push.mul(div_raw(b.mass, total))), ..a }
        },
        if b.fixed {
            b
        } else {
            BodyModel { pos: b.pos.add(push.mul(div_raw(a.mass, total))), ..b }
        },
    )
}

/// The velocity of `b` relative to `a` along `normal`: negative while the
/// two approach.
pub open spec fn closing_speed(a: BodyModel, b: BodyModel, normal: V2) -> int {
    b.vel.sub(a.vel).dot(normal)
}

/// Minus `1 + e` times the relative normal velocity, where `e` is the
/// lesser restitution.
pub open spec fn rebound(a: BodyModel, b: BodyModel, normal: V2) -> int {
    let e = min_raw(a.restitution, b.restitution);
    mul_raw(neg_raw(add_raw(SCALE as int, e)), closing_speed(a, b, normal))
}

/// The magnitude of the impulse along `normal`: the rebound over the sum
/// of the inverse masses.
pub open spec fn impulse(a: BodyModel, b: BodyModel, normal: V2) -> int {
    div_raw(rebound(a, b, normal), add_raw(inverse_mass(a.mass), inverse_mass(b.mass)))
}

/// The two bodies after the impulse along `normal` has changed their
/// velocities. A fixed body keeps its velocity.
pub open spec fn bounced(a: BodyModel, b: BodyModel, normal: V2) -> (BodyModel, BodyModel) {
    let kick = normal.mul(impulse(a, b, normal));
    (
        if a.fixed {
            a
        } else {
            BodyModel { vel: a.vel.sub(kick.mul(inverse_mass(a.mass))), ..a }
        },
        if b.fixed {
            b
        } else {
            BodyModel { vel: b.vel.add(kick.mul(inverse_mass(b.mass))), ..b }
        },
    )
}

/// The two bodies after their contact, if any, has been resolved: pushed
/// apart, then bounced along the normal that the contact had before the
/// push.
pub open spec fn resolved(a: BodyModel, b: BodyModel) -> (BodyModel, BodyModel) {
    if overlapping(a, b) {
        let apart = separated(a, b);
        bounced(apart.0, apart.1, contact_normal(a, b))
    } else {
        (a, b)
    }
}

/// Progress of the pairwise pass: the bodies so far, and whether a winning
/// contact has been seen.
pub struct Contacts {
    pub bodies: Seq<BodyModel>,
    pub goal_hit: bool,
}

/// The pass after the pair `(i, j)` has been handled.
pub open spec fn pair_handled(c: Contacts, i: int, j: int) -> Contacts {
    let a = c.bodies[i];
    let b = c.bodies[j];
    let r = resolved(a, b);
    Contacts {
        bodies: c.bodies.update(i, r.0).update(j, r.1),
        goal_hit: c.goal_hit || (overlapping(a, b) && triggers_goal(a, b)),
    }
}

/// The pass after body `i` has been paired with the bodies `i + 1` up to,
/// but not including, `end`.
pub open spec fn row_handled(c: Contacts, i: int, end: int) -> Contacts
    decreases end - i,
{
    if end <= i + 1 {
        c
    } else {
        pair_handled(row_handled(c, i, end - 1), i, end - 1)
    }
}

/// The pass after each of the first `rows` bodies has been paired with all
/// the bodies behind it.
pub open spec fn rows_handled(c: Contacts, rows: int) -> Contacts
    decreases rows,
{
    if rows <= 0 {
        c
    } else {
        let before = rows_handled(c, rows - 1);
        row_handled(before, rows - 1, before.bodies.len() as int)
    }
}

/// The whole pairwise pass over `bodies`: every unordered pair once, in
/// the order `(0, 1), (0, 2), .., (1, 2), ..`.
pub open spec fn all_pairs_handled(bodies: Seq<BodyModel>) -> Contacts {
    rows_handled(Contacts { bodies, goal_hit: false }, bodies.len() as int)
}

/// The reciprocal of a valid mass is positive.
pub proof fn lemma_inverse_mass_positive(m: int)
    requires
        0 < m <= MAX_MASS,
    ensures
        inverse_mass(m) > 0,
{
    assert((SCALE as int) * (SCALE as int) == MAX_MASS as int);
    assert(MAX_MASS as int / m >= 1) by (nonlinear_arith)
        requires
            0 < m <= MAX_MASS,
    ;
}

/// Resolving a contact moves the two bodies and does nothing else.
pub proof fn lemma_resolved_moves(a: BodyModel, b: BodyModel)
    ensures
        moved_from(resolved(a, b).0, a),
        moved_from(resolved(a, b).1, b),
{
}

/// Handling the pairs of one row moves bodies and does nothing else.
pub proof fn lemma_row_moves(c: Contacts, i: int, end: int)
    requires
        0 <= i,
        end <= c.bodies.len(),
    ensures
        all_moved_from(row_handled(c, i, end).bodies, c.bodies),
    decreases end - i,
{
    if end > i + 1 {
        lemma_row_moves(c, i, end - 1);
        let before = row_handled(c, i, end - 1);
        lemma_resolved_moves(before.bodies[i], before.bodies[end - 1]);
    }
}

/// Handling rows of pairs moves bodies and does nothing else.
pub proof fn lemma_rows_move(c: Contacts, rows: int)
    requires
        rows <= c.bodies.len(),
    ensures
        all_moved_from(rows_handled(c, rows).bodies, c.bodies),
    decreases rows,
{
    if rows > 0 {
        lemma_rows_move(c, rows - 1);
        let before = rows_handled(c, rows - 1);
        lemma_row_moves(before, rows - 1, before.bodies.len() as int);
    }
}

/// The pairwise pass moves bodies and does nothing else.
pub proof fn lemma_pairs_move(bodies: Seq<BodyModel>)
    ensures
        all_moved_from(all_pairs_handled(bodies).bodies, bodies),
{
    lemma_rows_move(Contacts { bodies, goal_hit: false }, bodies.len() as int);
}

/// Whether no two of the bodies could win the scenario by touching.
pub open spec fn no_pair_scores(bodies: Seq<BodyModel>) -> bool {
    forall|i: int, j: int|
        0 <= i < bodies.len() && 0 <= j < bodies.len() ==> !triggers_goal(
            #[trigger] bodies[i],
            #[trigger] bodies[j],
        )
}

/// Moving bodies does not change which pairs could win.
pub proof fn lemma_moving_keeps_scores(after: Seq<BodyModel>, before: Seq<BodyModel>)
    requires
        all_moved_from(after, before),
        no_pair_scores(before),
    ensures
        no_pair_scores(after),
{
    assert forall|i: int, j: int|
        0 <= i < after.len() && 0 <= j < after.len() implies !triggers_goal(
        #[trigger] after[i],
        #[trigger] after[j],
    ) by {
        assert(!triggers_goal(before[i], before[j]));
    }
}

/// Where no pair could win, a row of pairs does not win.
pub proof fn lemma_row_without_score(c: Contacts, i: int, end: int)
    requires
        0 <= i,
        end <= c.bodies.len(),
        no_pair_scores(c.bodies),
    ensures
        row_handled(c, i, end).goal_hit == c.goal_hit,
    decreases end - i,
{
    if end > i + 1 {
        lemma_row_without_score(c, i, end - 1);
        lemma_row_moves(c, i, end - 1);
        let before = row_handled(c, i, end - 1);
        lemma_moving_keeps_scores(before.bodies, c.bodies);
        assert(!triggers_goal(before.bodies[i], before.bodies[end - 1]));
    }
}

/// Where no pair could win, the pairwise pass does not win.
pub proof fn lemma_rows_without_score(c: Contacts, rows: int)
    requires
        rows <= c.bodies.len(),
        no_pair_scores(c.bodies),
    ensures
        rows_handled(c, rows).goal_hit == c.goal_hit,
    decreases rows,
{
    if rows > 0 {
        lemma_rows_without_score(c, rows - 1);
        lemma_rows_move(c, rows - 1);
        let before = rows_handled(c, rows - 1);
        lemma_moving_keeps_scores(before.bodies, c.bodies);
        lemma_row_without_score(before, rows - 1, before.bodies.len() as int);
    }
}

/// A winning contact is not forgotten in the rest of its row.
pub proof fn lemma_row_keeps_win(c: Contacts, i: int, end: int)
    requires
        c.goal_hit,
    ensures
        row_handled(c, i, end).goal_hit,
    decreases end - i,
{
    if end > i + 1 {
        lemma_row_keeps_win(c, i, end - 1);
    }
}

/// A winning contact is not forgotten in the rest of the pass.
pub proof fn lemma_rows_keep_win(c: Contacts, from: int, rows: int)
    requires
        from <= rows,
        rows_handled(c, from).goal_hit,
    ensures
        rows_handled(c, rows).goal_hit,
    decreases rows - from,
{
    if from < rows {
        lemma_rows_keep_win(c, from, rows - 1);
        if rows > 0 {
            let before = rows_handled(c, rows - 1);
            lemma_row_keeps_win(before, rows - 1, before.bodies.len() as int);
        }
    }
}

/// A row wins if one of its pairs, as it is met, overlaps and could win.
pub proof fn lemma_row_wins(c: Contacts, i: int, j: int, end: int)
    requires
        i < j < end,
        overlapping(row_handled(c, i, j).bodies[i], row_handled(c, i, j).bodies[j]),
        triggers_goal(row_handled(c, i, j).bodies[i], row_handled(c, i, j).bodies[j]),
    ensures
        row_handled(c, i, end).goal_hit,
    decreases end - j,
{
    if end == j + 1 {
    } else {
        lemma_row_wins(c, i, j, end - 1);
    }
}

/// Whether the bodies of the pair `(i, j)` overlap as the pass that
/// starts from `c` meets the pair: after all the pairs before it have been
/// handled.
pub open spec fn overlaps_when_met(c: Contacts, i: int, j: int) -> bool {
    let met = row_handled(rows_handled(c, i), i, j).bodies;
    overlapping(met[i], met[j])
}

/// Whether the pair `(i, j)` wins as the pass that starts from `c` meets
/// it: the two bodies overlap then, and their contact could win.
pub open spec fn scores_when_met(c: Contacts, i: int, j: int) -> bool {
    let met = row_handled(rows_handled(c, i), i, j).bodies;
    overlapping(met[i], met[j]) && triggers_goal(met[i], met[j])
}

/// Whether a pair could win does not change while the pass goes on: a
/// pair wins as it is met exactly if it overlaps then and could win from
/// the start.
pub proof fn lemma_met_pair_keeps_roles(c: Contacts, i: int, j: int)
    requires
        0 <= i < j < c.bodies.len(),
    ensures
        scores_when_met(c, i, j) <==> overlaps_when_met(c, i, j) && triggers_goal(
            c.bodies[i],
            c.bodies[j],
        ),
{
    let before = rows_handled(c, i);
    lemma_rows_move(c, i);
    lemma_row_moves(before, i, j);
    let met = row_handled(before, i, j).bodies;
    assert(moved_from(met[i], before.bodies[i]) && moved_from(before.bodies[i], c.bodies[i]));
    assert(moved_from(met[j], before.bodies[j]) && moved_from(before.bodies[j], c.bodies[j]));
}

/// A row that wins has a pair that won as it was met, unless the win was
/// there before.
pub proof fn lemma_row_win_has_a_cause(c: Contacts, i: int, end: int) -> (j: int)
    requires
        !c.goal_hit,
        row_handled(c, i, end).goal_hit,
    ensures
        i < j < end,
        overlapping(row_handled(c, i, j).bodies[i], row_handled(c, i, j).bodies[j]),
        triggers_goal(row_handled(c, i, j).bodies[i], row_handled(c, i, j).bodies[j]),
    decreases end - i,
{
    if row_handled(c, i, end - 1).goal_hit {
        lemma_row_win_has_a_cause(c, i, end - 1)
    } else {
        end - 1
    }
}

/// A pass that wins has a pair that won as it was met, unless the win was
/// there before.
pub proof fn lemma_win_has_a_cause(c: Contacts, rows: int) -> (pair: (int, int))
    requires
        rows <= c.bodies.len(),
        !c.goal_hit,
        rows_handled(c, rows).goal_hit,
    ensures
        0 <= pair.0 < pair.1 < c.bodies.len(),
        pair.0 < rows,
        scores_when_met(c, pair.0, pair.1),
    decreases rows,
{
    let before = rows_handled(c, rows - 1);
    lemma_rows_move(c, rows - 1);
    if before.goal_hit {
        lemma_win_has_a_cause(c, rows - 1)
    } else {
        let j = lemma_row_win_has_a_cause(before, rows - 1, before.bodies.len() as int);
        (rows - 1, j)
    }
}

/// A pass wins if one of its pairs wins as it is met.
pub proof fn lemma_cause_wins(c: Contacts, i: int, j: int, rows: int)
    requires
        0 <= i < j < c.bodies.len(),
        i < rows <= c.bodies.len(),
        scores_when_met(c, i, j),
    ensures
        rows_handled(c, rows).goal_hit,
{
    let before = rows_handled(c, i);
    lemma_rows_move(c, i);
    lemma_row_wins(before, i, j, before.bodies.len() as int);
    assert(rows_handled(c, i + 1) == row_handled(before, i, before.bodies.len() as int));
    lemma_rows_keep_win(c, i + 1, rows);
}

/// Whether the pair `(i, j)` is the only one of the pass from `c` whose
/// bodies overlap as the pass meets them, if any pair is.
pub open spec fn is_lone_contact(c: Contacts, i: int, j: int) -> bool {
    &&& 0 <= i < j < c.bodies.len()
    &&& forall|k: int, l: int|
        0 <= k < l < c.bodies.len() && !(k == i && l == j) ==> !#[trigger] overlaps_when_met(
            c,
            k,
            l,
        )
}

/// The bodies of `c` with the pair `(i, j)` resolved.
pub open spec fn with_pair_resolved(c: Contacts, i: int, j: int) -> Seq<BodyModel> {
    let r = resolved(c.bodies[i], c.bodies[j]);
    c.bodies.update(i, r.0).update(j, r.1)
}

/// Whether the pass meets the pair `(i, j)` before the pair `(k, l)`.
pub open spec fn met_before(i: int, j: int, k: int, l: int) -> bool {
    i < k || (i == k && j < l)
}

/// The bodies of a pass with a lone contact, as the pass stands before
/// the pair `(k, l)`: the lone pair resolved if it was met, and nothing
/// else changed.
pub open spec fn lone_contact_so_far(c: Contacts, i: int, j: int, k: int, l: int) -> Seq<
    BodyModel,
> {
    if met_before(i, j, k, l) {
        with_pair_resolved(c, i, j)
    } else {
        c.bodies
    }
}

/// With a lone contact, a row of the pass changes nothing but the lone
/// pair.
pub proof fn lemma_row_with_lone_contact(c: Contacts, i: int, j: int, k: int, end: int)
    requires
        is_lone_contact(c, i, j),
        0 <= k < end <= c.bodies.len(),
        rows_handled(c, k).bodies == lone_contact_so_far(c, i, j, k, k + 1),
    ensures
        row_handled(rows_handled(c, k), k, end).bodies == lone_contact_so_far(c, i, j, k, end),
    decreases end - k,
{
    let start = rows_handled(c, k);
    if end > k + 1 {
        lemma_row_with_lone_contact(c, i, j, k, end - 1);
        let before = row_handled(start, k, end - 1);
        if k == i && end - 1 == j {
            assert(before.bodies == c.bodies);
        } else {
            assert(!overlaps_when_met(c, k, end - 1));
            assert(before.bodies.update(k, before.bodies[k]).update(end - 1, before.bodies[end - 1])
                =~= before.bodies);
        }
    }
}

/// With a lone contact, the rows of the pass change nothing but the lone
/// pair.
pub proof fn lemma_rows_with_lone_contact(c: Contacts, i: int, j: int, rows: int)
    requires
        is_lone_contact(c, i, j),
        0 <= rows <= c.bodies.len(),
    ensures
        rows_handled(c, rows).bodies == lone_contact_so_far(c, i, j, rows, rows + 1),
    decreases rows,
{
    if rows > 0 {
        lemma_rows_with_lone_contact(c, i, j, rows - 1);
        let before = rows_handled(c, rows - 1);
        lemma_rows_move(c, rows - 1);
        lemma_row_with_lone_contact(c, i, j, rows - 1, c.bodies.len() as int);
        assert(with_pair_resolved(c, i, j).len() == c.bodies.len());
    }
}

/// Where one pair alone is in contact, the pairwise pass resolves that
/// pair and leaves every other body as it was.
pub proof fn lemma_lone_contact_is_resolved(bodies: Seq<BodyModel>, i: int, j: int)
    requires
        is_lone_contact(Contacts { bodies, goal_hit: false }, i, j),
    ensures
        all_pairs_handled(bodies).bodies == with_pair_resolved(
            Contacts { bodies, goal_hit: false },
            i,
            j,
        ),
{
    lemma_rows_with_lone_contact(Contacts { bodies, goal_hit: false }, i, j, bodies.len() as int);
}

impl Body {
    /// Whether the disks of the two bodies overlap.
    pub fn overlaps(&self, other: &Body) -> (r: bool)
        ensures
            r == overlapping(self@, other@),
    {
        other.pos.sub(self.pos).length().raw < self.radius.add(other.radius).raw
    }

    /// Whether a contact with `other` wins the scenario.
    pub fn scores_with(&self, other: &Body) -> (r: bool)
        ensures
            r == triggers_goal(self@, other@),
    {
        (self.is_goal && !other.is_goal && !other.is_player && !other.fixed) || (other.is_goal
            && !self.is_goal && !self.is_player && !self.fixed)
    }

    /// The reciprocal of the body's mass.
    pub fn inverse_mass(&self) -> (r: Fixed)
        requires
            self@.valid(),
        ensures
            r@ == inverse_mass(self@.mass),
            r@ > 0,
    {
        proof {
            lemma_inverse_mass_positive(self@.mass);
        }
        Fixed::one().div(self.mass)
    }
}

/// The normal of the contact of `a` with `b`.
pub fn normal_between(a: &Body, b: &Body) -> (r: Vec2)
    ensures
        r@ == contact_normal(a@, b@),
{
    let delta = b.pos.sub(a.pos);
    if delta.length().raw == 0 {
        Vec2 { x: Fixed::one(), y: Fixed::zero() }
    } else {
        delta.normalized()
    }
}

/// Pushes two overlapping bodies apart.
pub fn separate(a: Body, b: Body) -> (r: (Body, Body))
    requires
        a@.valid(),
        b@.valid(),
    ensures
        (r.0@, r.1@) == separated(a@, b@),
{
    let delta = b.pos.sub(a.pos);
    let overlap = a.radius.add(b.radius).sub(delta.length());
    let push = normal_between(&a, &b).mul(overlap.half());
    let total = a.mass.add(b.mass);
    let first = if a.fixed {
        a
    } else {
        Body { pos: a.pos.sub(push.mul(b.mass.div(total))), ..a }
    };
    let second = if b.fixed {
        b
    } else {
        Body { pos: b.pos.add(push.mul(a.mass.div(total))), ..b }
    };
    (first, second)
}

/// Exchanges the impulse along `normal` between two bodies.
pub fn bounce(a: Body, b: Body, normal: Vec2) -> (r: (Body, Body))
    requires
        a@.valid(),
        b@.valid(),
    ensures
        (r.0@, r.1@) == bounced(a@, b@, normal@),
{
    let along = b.vel.sub(a.vel).dot(&normal);
    let e = a.restitution.min(b.restitution);
    let inv_a = a.inverse_mass();
    let inv_b = b.inverse_mass();
    let j = Fixed::one().add(e).neg().mul(along).div(inv_a.add(inv_b));
    let kick = normal.mul(j);
    let first = if a.fixed {
        a
    } else {
        Body { vel: a.vel.sub(kick.mul(inv_a)), ..a }
    };
    let second = if b.fixed {
        b
    } else {
        Body { vel: b.vel.add(kick.mul(inv_b)), ..b }
    };
    (first, second)
}

/// Resolves the contact of two bodies, if they overlap.
pub fn resolve_pair(a: Body, b: Body) -> (r: (Body, Body))
    requires
        a@.valid(),
        b@.valid(),
    ensures
        (r.0@, r.1@) == resolved(a@, b@),
        r.0@.valid(),
        r.1@.valid(),
{
    if a.overlaps(&b) {
        let normal = normal_between(&a, &b);
        let apart = separate(a, b);
        bounce(apart.0, apart.1, normal)
    } else {
        (a, b)
    }
}

/// Resolves every overlapping pair of bodies, in the order `(0, 1),
/// (0, 2), .., (1, 2), ..`, and reports whether any contact, as it was
/// met, won the scenario.
pub fn resolve_collisions(bodies: &mut Vec<Body>) -> (goal_hit: bool)
    requires
        all_valid(models(old(bodies)@)),
    ensures
        models(final(bodies)@) == all_pairs_handled(models(old(bodies)@)).bodies,
        goal_hit == all_pairs_handled(models(old(bodies)@)).goal_hit,
        final(bodies)@.len() == old(bodies)@.len(),
        all_valid(models(final(bodies)@)),
{
    let ghost start = Contacts { bodies: models(bodies@), goal_hit: false };
    let n = bodies.len();
    let mut hit = false;
    let mut i: usize = 0;
    while i < n
        invariant
            i <= n,
            n == bodies@.len(),
            n == old(bodies)@.len(),
            start == (Contacts { bodies: models(old(bodies)@), goal_hit: false }),
            (Contacts { bodies: models(bodies@), goal_hit: hit }) == rows_handled(start, i as int),
            all_valid(models(bodies@)),
        decreases n - i,
    {
        let ghost row_start = Contacts { bodies: models(bodies@), goal_hit: hit };
        let mut j: usize = i + 1;
        while j < n
            invariant
                i + 1 <= j <= n,
                n == bodies@.len(),
                row_start.bodies.len() == n,
                (Contacts { bodies: models(bodies@), goal_hit: hit }) == row_handled(
                    row_start,
                    i as int,
                    j as int,
                ),
                all_valid(models(bodies@)),
            decreases n - j,
        {
            let a = bodies[i];
            let b = bodies[j];
            let ghost before = Contacts { bodies: models(bodies@), goal_hit: hit };
            assert(a@ == before.bodies[i as int] && b@ == before.bodies[j as int]);
            if a.overlaps(&b) && a.scores_with(&b) {
                hit = true;
            }
            let r = resolve_pair(a, b);
            bodies.set(i, r.0);
            bodies.set(j, r.1);
            assert(models(bodies@) =~= before.bodies.update(i as int, r.0@).update(j as int, r.1@));
            assert((Contacts { bodies: models(bodies@), goal_hit: hit }) == pair_handled(
                before,
                i as int,
                j as int,
            ));
            j = j + 1;
        }
        i = i + 1;
    }
    hit
}

} // verus!
