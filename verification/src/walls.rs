//! Collision of bodies with wall segments.
//!
//! A body meets a wall only beside it: where the foot of the perpendicular
//! from the centre falls on the segment. The ends of a wall are not
//! rounded. Walls act on a body one after another, so a later wall may undo
//! part of what an earlier one did.

use vstd::prelude::*;
use crate::fixed::{SCALE, add_raw, sub_raw, neg_raw, mul_raw, abs_raw};
use crate::vec2::V2;
use crate::body::{
    Body, BodyModel, Wall, WallModel, models, wall_models, all_valid, walls_valid, moved_from,
    all_moved_from, lemma_moved_stay_valid,
};

verus! {

/// The unit vector along the wall, from start to end.
pub open spec fn wall_direction(w: WallModel) -> V2 {
    w.span().div(w.span().length())
}

/// The unit normal of the wall: its direction turned a quarter turn.
pub open spec fn wall_normal(w: WallModel) -> V2 {
    wall_direction(w).perp()
}

/// How far along the wall, measured from its start, the centre of the
/// body projects.
pub open spec fn along_wall(b: BodyModel, w: WallModel) -> int {
    b.pos.sub(w.start).dot(wall_direction(w))
}

/// Signed distance of the centre of the body from the line of the wall,
/// positive on the side the normal points to.
pub open spec fn wall_distance(b: BodyModel, w: WallModel) -> int {
    b.pos.sub(w.start).dot(wall_normal(w))
}

/// Whether the body touches the wall: it projects onto the segment and its
/// centre is no farther from the line than its radius.
pub open spec fn touches(b: BodyModel, w: WallModel) -> bool {
    &&& 0 <= along_wall(b, w) <= w.span().length()
    &&& abs_raw(wall_distance(b, w)) <= b.radius
}

/// Whether a normal velocity `vn` carries a body at signed distance `dist`
/// toward the line of the wall.
pub open spec fn approaching(vn: int, dist: int) -> bool {
    (vn < 0 && dist > 0) || (vn > 0 && dist < 0)
}

/// The body after one wall has acted on it. A touching body is pushed out
/// along the normal, on the side it is on, until its centre is one radius
/// from the line; a centre on the line counts as the positive side. If it
/// was approaching, the normal part of its velocity is reflected and
/// scaled by its restitution. A fixed body is left as it is.
pub open spec fn deflected(b: BodyModel, w: WallModel) -> BodyModel {
    if b.fixed || !touches(b, w) {
        b
    } else {
        let normal = wall_normal(w);
        let dist = wall_distance(b, w);
        let depth = sub_raw(b.radius, abs_raw(dist));
        let push = if dist < 0 {
            neg_raw(depth)
        } else {
            depth
        };
        let vn = b.vel.dot(normal);
        BodyModel {
            pos: b.pos.add(normal.mul(push)),
            vel: if approaching(vn, dist) {
                b.vel.sub(normal.mul(mul_raw(vn, add_raw(SCALE as int, b.restitution))))
            } else {
                b.vel
            },
            ..b
        }
    }
}

/// The body after the first `k` walls have acted on it, in order.
pub open spec fn walls_deflected(b: BodyModel, walls: Seq<WallModel>, k: int) -> BodyModel
    decreases k,
{
    if k <= 0 {
        b
    } else {
        deflected(walls_deflected(b, walls, k - 1), walls[k - 1])
    }
}

/// Every body after all the walls have acted on it.
pub open spec fn all_deflected(bodies: Seq<BodyModel>, walls: Seq<WallModel>) -> Seq<BodyModel> {
    Seq::new(bodies.len(), |i: int| walls_deflected(bodies[i], walls, walls.len() as int))
}

/// Walls move a body and do nothing else.
pub proof fn lemma_walls_move_one(b: BodyModel, walls: Seq<WallModel>, k: int)
    ensures
        moved_from(walls_deflected(b, walls, k), b),
    decreases k,
{
    if k > 0 {
        lemma_walls_move_one(b, walls, k - 1);
    }
}

/// The wall pass moves bodies and does nothing else.
pub proof fn lemma_walls_move(bodies: Seq<BodyModel>, walls: Seq<WallModel>)
    ensures
        all_moved_from(all_deflected(bodies, walls), bodies),
{
    assert forall|i: int| 0 <= i < bodies.len() implies moved_from(
        #[trigger] all_deflected(bodies, walls)[i],
        bodies[i],
    ) by {
        lemma_walls_move_one(bodies[i], walls, walls.len() as int);
    }
}

/// Whether none of the walls touches the body.
pub open spec fn is_clear_of(b: BodyModel, walls: Seq<WallModel>) -> bool {
    forall|k: int| 0 <= k < walls.len() ==> !touches(b, #[trigger] walls[k])
}

/// Walls that do not touch a body leave it as it is.
pub proof fn lemma_clear_body_passes(b: BodyModel, walls: Seq<WallModel>, upto: int)
    requires
        is_clear_of(b, walls),
        upto <= walls.len(),
    ensures
        walls_deflected(b, walls, upto) == b,
    decreases upto,
{
    if upto > 0 {
        lemma_clear_body_passes(b, walls, upto - 1);
    }
}

/// Whether wall `k` is the only one of the walls that touches the body as
/// the walls act on it in order, if any does: the walls before it do not
/// touch the body, and the walls after it do not touch the body as wall
/// `k` leaves it.
pub open spec fn is_lone_wall(b: BodyModel, walls: Seq<WallModel>, k: int) -> bool {
    &&& 0 <= k < walls.len()
    &&& forall|m: int| 0 <= m < k ==> !touches(b, #[trigger] walls[m])
    &&& forall|m: int| k < m < walls.len() ==> !touches(deflected(b, walls[k]), #[trigger] walls[m])
}

/// Where one wall alone touches a body, the walls before it leave the
/// body as it is, and the walls up to any later one do what that wall
/// does.
pub proof fn lemma_lone_wall_acts(b: BodyModel, walls: Seq<WallModel>, k: int, upto: int)
    requires
        is_lone_wall(b, walls, k),
        0 <= upto <= walls.len(),
    ensures
        walls_deflected(b, walls, upto) == if upto <= k {
            b
        } else {
            deflected(b, walls[k])
        },
    decreases upto,
{
    if upto > 0 {
        lemma_lone_wall_acts(b, walls, k, upto - 1);
    }
}

impl Body {
    /// The body after `wall` has acted on it.
    pub fn deflected(self, wall: &Wall) -> (r: Body)
        requires
            wall@.valid(),
        ensures
            r@ == deflected(self@, wall@),
    {
        if self.fixed {
            return self;
        }
        let span = wall.end.sub(wall.start);
        let len = span.length();
        let dir = span.div(len);
        let to_body = self.pos.sub(wall.start);
        let along = to_body.dot(&dir);
        if along.raw < 0 || along.raw > len.raw {
            return self;
        }
        let normal = dir.perp();
        let dist = to_body.dot(&normal);
        if dist.abs().raw > self.radius.raw {
            return self;
        }
        let depth = self.radius.sub(dist.abs());
        let push = if dist.raw < 0 {
            depth.neg()
        } else {
            depth
        };
        let vn = self.vel.dot(&normal);
        let vel = if (vn.raw < 0 && dist.raw > 0) || (vn.raw > 0 && dist.raw < 0) {
            self.vel.sub(normal.mul(vn.mul(crate::fixed::Fixed::one().add(self.restitution))))
        } else {
            self.vel
        };
        Body { pos: self.pos.add(normal.mul(push)), vel, ..self }
    }
}

/// Lets every wall act on every body: body by body, wall by wall.
pub fn resolve_walls(bodies: &mut Vec<Body>, walls: &Vec<Wall>)
    requires
        walls_valid(wall_models(walls@)),
    ensures
        models(final(bodies)@) == all_deflected(models(old(bodies)@), wall_models(walls@)),
        final(bodies)@.len() == old(bodies)@.len(),
        all_valid(models(old(bodies)@)) ==> all_valid(models(final(bodies)@)),
{
    let ghost specs = wall_models(walls@);
    let mut i: usize = 0;
    while i < bodies.len()
        invariant
            i <= bodies@.len(),
            bodies@.len() == old(bodies)@.len(),
            specs == wall_models(walls@),
            walls_valid(specs),
            forall|j: int|
                0 <= j < i ==> (#[trigger] bodies@[j])@ == walls_deflected(
                    old(bodies)@[j]@,
                    specs,
                    specs.len() as int,
                ),
            forall|j: int| i <= j < bodies@.len() ==> #[trigger] bodies@[j] == old(bodies)@[j],
        decreases bodies@.len() - i,
    {
        let mut body = bodies[i];
        let ghost first = body@;
        let mut k: usize = 0;
        while k < walls.len()
            invariant
                k <= walls@.len(),
                specs == wall_models(walls@),
                walls_valid(specs),
                body@ == walls_deflected(first, specs, k as int),
            decreases walls@.len() - k,
        {
            assert(walls@[k as int]@ == specs[k as int] && specs[k as int].valid());
            body = body.deflected(&walls[k]);
            k = k + 1;
        }
        bodies.set(i, body);
        i = i + 1;
    }
    assert(models(bodies@) =~= all_deflected(models(old(bodies)@), wall_models(walls@)));
    proof {
        lemma_walls_move(models(old(bodies)@), specs);
        if all_valid(models(old(bodies)@)) {
            lemma_moved_stay_valid(models(bodies@), models(old(bodies)@));
        }
    }
}

} // verus!
