//! Spring forces and semi-implicit Euler integration.
//!
//! Spring forces depend on positions only and the spring pass changes
//! accelerations only, so every force of one step is computed from the
//! positions that the previous step left.

use vstd::prelude::*;
use crate::fixed::{Fixed, sub_raw, mul_raw};
use crate::vec2::{Vec2, V2};
use crate::body::{
    Body, BodyModel, Spring, SpringModel, Anchor, AnchorModel, models, spring_models, all_valid,
    all_moved_from, lemma_moved_stay_valid,
};

verus! {

/// Where the spring is fastened, if its anchor refers to anything.
pub open spec fn anchor_position(bodies: Seq<BodyModel>, s: SpringModel) -> Option<V2> {
    match s.anchor {
        AnchorModel::Point(p) => Some(p),
        AnchorModel::Body(k) => if 0 <= k < bodies.len() {
            Some(bodies[k].pos)
        } else {
            None
        },
    }
}

/// The Hookean force of a spring on its body: along the direction to the
/// anchor, proportional to the stretch beyond the rest length. There is no
/// force when the body or the anchor does not exist, or when the body sits
/// exactly on the anchor.
pub open spec fn spring_force(bodies: Seq<BodyModel>, s: SpringModel) -> Option<V2> {
    if !(0 <= s.body < bodies.len()) {
        None
    } else {
        match anchor_position(bodies, s) {
            None => None,
            Some(anchor) => {
                let to_anchor = anchor.sub(bodies[s.body].pos);
                let distance = to_anchor.length();
                if distance == 0 {
                    None
                } else {
                    let stretch = sub_raw(distance, s.rest_length);
                    Some(to_anchor.div(distance).mul(mul_raw(stretch, s.stiffness)))
                }
            },
        }
    }
}

/// The body after a force has been added to its pending acceleration. A
/// fixed body takes no force.
pub open spec fn pulled(b: BodyModel, force: V2) -> BodyModel {
    if b.fixed {
        b
    } else {
        BodyModel { acc: b.acc.add(force.div(b.mass)), ..b }
    }
}

/// The bodies after one spring has acted.
pub open spec fn spring_applied(bodies: Seq<BodyModel>, s: SpringModel) -> Seq<BodyModel> {
    match spring_force(bodies, s) {
        None => bodies,
        Some(force) => bodies.update(s.body, pulled(bodies[s.body], force)),
    }
}

/// The bodies after the first `k` springs have acted, in order.
pub open spec fn springs_applied(bodies: Seq<BodyModel>, springs: Seq<SpringModel>, k: int) -> Seq<
    BodyModel,
>
    decreases k,
{
    if k <= 0 {
        bodies
    } else {
        spring_applied(springs_applied(bodies, springs, k - 1), springs[k - 1])
    }
}

/// One integration step of a body: gravity joins the pending acceleration,
/// the velocity advances by the acceleration, the acceleration is cleared,
/// and the position advances by the new velocity. A fixed body is left
/// as it is.
pub open spec fn integrated(b: BodyModel, gravity: V2, dt: int) -> BodyModel {
    if b.fixed {
        b
    } else {
        let acc = b.acc.add(gravity);
        let vel = b.vel.add(acc.mul(dt));
        BodyModel { pos: b.pos.add(vel.mul(dt)), vel, acc: V2::zero(), ..b }
    }
}

/// Every body integrated once.
pub open spec fn all_integrated(bodies: Seq<BodyModel>, gravity: V2, dt: int) -> Seq<BodyModel> {
    Seq::new(bodies.len(), |i: int| integrated(bodies[i], gravity, dt))
}

/// The spring pass moves bodies and does nothing else; in fact it changes
/// pending accelerations only.
pub proof fn lemma_springs_move(bodies: Seq<BodyModel>, springs: Seq<SpringModel>, k: int)
    ensures
        all_moved_from(springs_applied(bodies, springs, k), bodies),
        forall|i: int|
            0 <= i < bodies.len() ==> (#[trigger] springs_applied(bodies, springs, k)[i]).pos
                == bodies[i].pos && springs_applied(bodies, springs, k)[i].vel == bodies[i].vel,
    decreases k,
{
    if k > 0 {
        lemma_springs_move(bodies, springs, k - 1);
    }
}

/// Integration moves bodies and does nothing else.
pub proof fn lemma_integration_moves(bodies: Seq<BodyModel>, gravity: V2, dt: int)
    ensures
        all_moved_from(all_integrated(bodies, gravity, dt), bodies),
{
}

/// Computes [`spring_force`].
pub fn force_of(bodies: &Vec<Body>, spring: &Spring) -> (r: Option<Vec2>)
    ensures
        r is None <==> spring_force(models(bodies@), spring@) is None,
        r matches Some(f) ==> spring_force(models(bodies@), spring@) == Some(f@),
{
    if spring.body >= bodies.len() {
        return None;
    }
    let anchor = match spring.anchor {
        Anchor::Point(p) => p,
        Anchor::Body(k) => {
            if k >= bodies.len() {
                return None;
            }
            bodies[k].pos
        },
    };
    let to_anchor = anchor.sub(bodies[spring.body].pos);
    let distance = to_anchor.length();
    if distance.raw == 0 {
        return None;
    }
    let stretch = distance.sub(spring.rest_length);
    Some(to_anchor.div(distance).mul(stretch.mul(spring.stiffness)))
}

impl Body {
    /// The body after `force` has been added to its pending acceleration.
    pub fn pulled(self, force: Vec2) -> (r: Body)
        requires
            self@.valid(),
        ensures
            r@ == pulled(self@, force@),
    {
        if self.fixed {
            self
        } else {
            Body { acc: self.acc.add(force.div(self.mass)), ..self }
        }
    }

    /// The body after one integration step.
    pub fn integrated(self, gravity: Vec2, dt: Fixed) -> (r: Body)
        ensures
            r@ == integrated(self@, gravity@, dt@),
    {
        if self.fixed {
            self
        } else {
            let acc = self.acc.add(gravity);
            let vel = self.vel.add(acc.mul(dt));
            Body { pos: self.pos.add(vel.mul(dt)), vel, acc: Vec2::zero(), ..self }
        }
    }
}

/// Lets every spring act on its body, in order.
pub fn apply_springs(bodies: &mut Vec<Body>, springs: &Vec<Spring>)
    requires
        all_valid(models(old(bodies)@)),
    ensures
        models(final(bodies)@) == springs_applied(
            models(old(bodies)@),
            spring_models(springs@),
            springs@.len() as int,
        ),
        final(bodies)@.len() == old(bodies)@.len(),
        all_valid(models(final(bodies)@)),
{
    let ghost start = models(bodies@);
    let ghost specs = spring_models(springs@);
    let mut k: usize = 0;
    while k < springs.len()
        invariant
            k <= springs@.len(),
            start == models(old(bodies)@),
            specs == spring_models(springs@),
            bodies@.len() == old(bodies)@.len(),
            models(bodies@) == springs_applied(start, specs, k as int),
            all_valid(models(bodies@)),
        decreases springs@.len() - k,
    {
        let spring = springs[k];
        let ghost before = models(bodies@);
        assert(spring@ == specs[k as int]);
        match force_of(bodies, &spring) {
            None => {},
            Some(force) => {
                let idx = spring.body;
                assert(bodies@[idx as int]@ == before[idx as int]);
                let moved = bodies[idx].pulled(force);
                bodies.set(idx, moved);
                assert(models(bodies@) =~= before.update(idx as int, moved@));
            },
        }
        assert(models(bodies@) == spring_applied(before, spring@));
        k = k + 1;
    }
}

/// Integrates every body once.
pub fn integrate_all(bodies: &mut Vec<Body>, gravity: Vec2, dt: Fixed)
    ensures
        models(final(bodies)@) == all_integrated(models(old(bodies)@), gravity@, dt@),
        final(bodies)@.len() == old(bodies)@.len(),
        all_valid(models(old(bodies)@)) ==> all_valid(models(final(bodies)@)),
{
    let mut i: usize = 0;
    while i < bodies.len()
        invariant
            i <= bodies@.len(),
            bodies@.len() == old(bodies)@.len(),
            forall|j: int|
                0 <= j < i ==> (#[trigger] bodies@[j])@ == integrated(
                    old(bodies)@[j]@,
                    gravity@,
                    dt@,
                ),
            forall|j: int| i <= j < bodies@.len() ==> #[trigger] bodies@[j] == old(bodies)@[j],
        decreases bodies@.len() - i,
    {
        let moved = bodies[i].integrated(gravity, dt);
        bodies.set(i, moved);
        i = i + 1;
    }
    assert(models(bodies@) =~= all_integrated(models(old(bodies)@), gravity@, dt@));
    proof {
        lemma_integration_moves(models(old(bodies)@), gravity@, dt@);
        if all_valid(models(old(bodies)@)) {
            lemma_moved_stay_valid(models(bodies@), models(old(bodies)@));
        }
    }
}

} // verus!
