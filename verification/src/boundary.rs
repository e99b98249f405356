//! The arena rectangle and the clamping of bodies to it.

use vstd::prelude::*;
use crate::fixed::{Fixed, add_raw, sub_raw, neg_raw, mul_raw};
use crate::vec2::{Vec2, V2};
use crate::body::{
    Body, BodyModel, models, all_valid, all_moved_from, lemma_moved_stay_valid,
};

verus! {

/// Mathematical model of the arena: the raw coordinates of its edges.
pub struct ArenaModel {
    pub left: int,
    pub top: int,
    pub right: int,
    pub bottom: int,
}

impl ArenaModel {
    /// Whether a disk of radius `r` centred at `p` lies inside the arena.
    pub open spec fn holds(self, p: V2, r: int) -> bool {
        &&& self.left + r <= p.x <= self.right - r
        &&& self.top + r <= p.y <= self.bottom - r
    }

    /// Whether the arena is large enough to hold a disk of radius `r`, with
    /// its edges strictly inside the representable range.
    pub open spec fn fits(self, r: int) -> bool {
        &&& 0 <= r
        &&& i64::MIN < self.left
        &&& i64::MIN < self.top
        &&& self.right < i64::MAX
        &&& self.bottom < i64::MAX
        &&& self.left + 2 * r <= self.right
        &&& self.top + 2 * r <= self.bottom
    }
}

/// The rectangle that free bodies are kept in. `top` is the lesser `y`.
#[derive(Clone, Copy, Debug, PartialEq, Eq, Structural)]
pub struct Arena {
    pub left: Fixed,
    pub top: Fixed,
    pub right: Fixed,
    pub bottom: Fixed,
}

impl View for Arena {
    type V = ArenaModel;

    open spec fn view(&self) -> ArenaModel {
        ArenaModel { left: self.left@, top: self.top@, right: self.right@, bottom: self.bottom@ }
    }
}

/// Position and velocity along one axis after clamping to `[lo, hi]`: a
/// disk that crosses an edge is put back against it and its velocity is
/// reversed and scaled by the restitution `e`. The low edge is tested
/// first.
pub open spec fn axis_clamped(p: int, v: int, r: int, e: int, lo: int, hi: int) -> (int, int) {
    if sub_raw(p, r) < lo {
        (add_raw(lo, r), mul_raw(neg_raw(v), e))
    } else if add_raw(p, r) > hi {
        (sub_raw(hi, r), mul_raw(neg_raw(v), e))
    } else {
        (p, v)
    }
}

/// The body after clamping to the arena, each axis by itself. A fixed body
/// is left as it is.
pub open spec fn contained(b: BodyModel, arena: ArenaModel) -> BodyModel {
    if b.fixed {
        b
    } else {
        let h = axis_clamped(b.pos.x, b.vel.x, b.radius, b.restitution, arena.left, arena.right);
        let v = axis_clamped(b.pos.y, b.vel.y, b.radius, b.restitution, arena.top, arena.bottom);
        BodyModel { pos: V2 { x: h.0, y: v.0 }, vel: V2 { x: h.1, y: v.1 }, ..b }
    }
}

/// Every body clamped to the arena.
pub open spec fn all_contained(bodies: Seq<BodyModel>, arena: ArenaModel) -> Seq<BodyModel> {
    Seq::new(bodies.len(), |i: int| contained(bodies[i], arena))
}

/// Clamping moves bodies and does nothing else.
pub proof fn lemma_containment_moves(bodies: Seq<BodyModel>, arena: ArenaModel)
    ensures
        all_moved_from(all_contained(bodies, arena), bodies),
{
}

fn clamp_axis(p: Fixed, v: Fixed, r: Fixed, e: Fixed, lo: Fixed, hi: Fixed) -> (out: (Fixed, Fixed))
    ensures
        (out.0@, out.1@) == axis_clamped(p@, v@, r@, e@, lo@, hi@),
{
    if p.sub(r).raw < lo.raw {
        (lo.add(r), v.neg().mul(e))
    } else if p.add(r).raw > hi.raw {
        (hi.sub(r), v.neg().mul(e))
    } else {
        (p, v)
    }
}

impl Body {
    /// The body after clamping to the arena.
    pub fn contained(self, arena: &Arena) -> (r: Body)
        ensures
            r@ == contained(self@, arena@),
            !self@.fixed && arena@.fits(self@.radius) ==> arena@.holds(r@.pos, r@.radius),
    {
        if self.fixed {
            self
        } else {
            let h = clamp_axis(
                self.pos.x,
                self.vel.x,
                self.radius,
                self.restitution,
                arena.left,
                arena.right,
            );
            let v = clamp_axis(
                self.pos.y,
                self.vel.y,
                self.radius,
                self.restitution,
                arena.top,
                arena.bottom,
            );
            Body { pos: Vec2 { x: h.0, y: v.0 }, vel: Vec2 { x: h.1, y: v.1 }, ..self }
        }
    }
}

/// Clamps every body to the arena.
pub fn resolve_boundaries(bodies: &mut Vec<Body>, arena: &Arena)
    ensures
        models(final(bodies)@) == all_contained(models(old(bodies)@), arena@),
        final(bodies)@.len() == old(bodies)@.len(),
        forall|i: int|
            0 <= i < final(bodies)@.len() && !old(bodies)@[i]@.fixed && arena@.fits(
                old(bodies)@[i]@.radius,
            ) ==> arena@.holds(#[trigger] final(bodies)@[i]@.pos, old(bodies)@[i]@.radius),
        all_valid(models(old(bodies)@)) ==> all_valid(models(final(bodies)@)),
{
    let mut i: usize = 0;
    while i < bodies.len()
        invariant
            i <= bodies@.len(),
            bodies@.len() == old(bodies)@.len(),
            forall|j: int|
                0 <= j < i ==> (#[trigger] bodies@[j])@ == contained(old(bodies)@[j]@, arena@),
            forall|j: int|
                0 <= j < i && !old(bodies)@[j]@.fixed && arena@.fits(old(bodies)@[j]@.radius)
                    ==> arena@.holds(#[trigger] bodies@[j]@.pos, old(bodies)@[j]@.radius),
            forall|j: int| i <= j < bodies@.len() ==> #[trigger] bodies@[j] == old(bodies)@[j],
        decreases bodies@.len() - i,
    {
        let kept = bodies[i].contained(arena);
        bodies.set(i, kept);
        i = i + 1;
    }
    assert(models(bodies@) =~= all_contained(models(old(bodies)@), arena@));
    proof {
        lemma_containment_moves(models(old(bodies)@), arena@);
        if all_valid(models(old(bodies)@)) {
            lemma_moved_stay_valid(models(bodies@), models(old(bodies)@));
        }
    }
}

} // verus!
