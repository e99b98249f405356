//! The simulated entities: circular bodies, wall segments and springs.

use vstd::prelude::*;
use crate::fixed::{Fixed, SCALE};
use crate::vec2::{Vec2, V2};

verus! {

/// Largest mass a body may have, in raw units: a billion whole units. Up
/// to this mass the reciprocal of a mass is at least one raw unit.
pub const MAX_MASS: i64 = SCALE * SCALE;

/// Mathematical model of a body.
pub struct BodyModel {
    pub pos: V2,
    pub vel: V2,
    pub acc: V2,
    pub radius: int,
    pub mass: int,
    pub restitution: int,
    pub is_goal: bool,
    pub is_player: bool,
    pub fixed: bool,
    pub initial_pos: V2,
    pub initial_vel: V2,
}

impl BodyModel {
    /// Positive radius, positive bounded mass, restitution between zero
    /// and one.
    pub open spec fn valid(self) -> bool {
        &&& 0 < self.radius
        &&& 0 < self.mass <= MAX_MASS
        &&& 0 <= self.restitution <= SCALE
    }

    /// Position and velocity as first recorded, acceleration cleared.
    pub open spec fn restored(self) -> BodyModel {
        BodyModel { pos: self.initial_pos, vel: self.initial_vel, acc: V2::zero(), ..self }
    }

    /// Whether the body is in its recorded initial state, with no pending
    /// acceleration: a reset would not change it.
    pub open spec fn at_start(self) -> bool {
        self.restored() == self
    }

    /// Whether the point `p` lies on the body's disk.
    pub open spec fn covers(self, p: V2) -> bool {
        self.pos.sub(p).length() <= self.radius
    }
}

/// A circular point-mass.
///
/// A `fixed` body is never moved; it still takes part in collisions as an
/// immovable obstacle. `acc` accumulates forces during one step and is
/// cleared by integration.
#[derive(Clone, Copy, Debug, PartialEq, Eq, Structural)]
pub struct Body {
    pub pos: Vec2,
    pub vel: Vec2,
    pub acc: Vec2,
    pub radius: Fixed,
    pub mass: Fixed,
    pub restitution: Fixed,
    pub is_goal: bool,
    pub is_player: bool,
    pub fixed: bool,
    pub initial_pos: Vec2,
    pub initial_vel: Vec2,
}

impl View for Body {
    type V = BodyModel;

    open spec fn view(&self) -> BodyModel {
        BodyModel {
            pos: self.pos@,
            vel: self.vel@,
            acc: self.acc@,
            radius: self.radius@,
            mass: self.mass@,
            restitution: self.restitution@,
            is_goal: self.is_goal,
            is_player: self.is_player,
            fixed: self.fixed,
            initial_pos: self.initial_pos@,
            initial_vel: self.initial_vel@,
        }
    }
}

/// The models of a sequence of bodies, in order.
pub open spec fn models(bodies: Seq<Body>) -> Seq<BodyModel> {
    Seq::new(bodies.len(), |i: int| bodies[i]@)
}

/// Whether `after` is the body `before` moved: it differs at most in
/// position, velocity and pending acceleration, and not at all if the body
/// is fixed.
pub open spec fn moved_from(after: BodyModel, before: BodyModel) -> bool {
    &&& after == (BodyModel { pos: after.pos, vel: after.vel, acc: after.acc, ..before })
    &&& before.fixed ==> after == before
}

/// Whether `after` holds the bodies of `before`, each moved.
pub open spec fn all_moved_from(after: Seq<BodyModel>, before: Seq<BodyModel>) -> bool {
    &&& after.len() == before.len()
    &&& forall|i: int| 0 <= i < before.len() ==> moved_from(#[trigger] after[i], before[i])
}

/// Bodies moved twice are bodies moved.
pub proof fn lemma_moved_twice(last: Seq<BodyModel>, middle: Seq<BodyModel>, first: Seq<BodyModel>)
    requires
        all_moved_from(last, middle),
        all_moved_from(middle, first),
    ensures
        all_moved_from(last, first),
{
    assert forall|i: int| 0 <= i < first.len() implies moved_from(#[trigger] last[i], first[i]) by {
        assert(moved_from(last[i], middle[i]));
        assert(moved_from(middle[i], first[i]));
    }
}

/// Whether every body of the sequence is in its recorded initial state.
pub open spec fn all_at_start(bodies: Seq<BodyModel>) -> bool {
    forall|i: int| 0 <= i < bodies.len() ==> (#[trigger] bodies[i]).at_start()
}

/// Moved bodies are as valid as they were.
pub proof fn lemma_moved_stay_valid(after: Seq<BodyModel>, before: Seq<BodyModel>)
    requires
        all_moved_from(after, before),
        all_valid(before),
    ensures
        all_valid(after),
{
    assert forall|i: int| 0 <= i < after.len() implies (#[trigger] after[i]).valid() by {
        assert(moved_from(after[i], before[i]));
        assert(before[i].valid());
    }
}

/// One more valid body keeps a sequence of valid bodies valid.
pub proof fn lemma_pushed_body_keeps_valid(bodies: Seq<BodyModel>, b: BodyModel)
    requires
        all_valid(bodies),
        b.valid(),
    ensures
        all_valid(bodies.push(b)),
{
    assert forall|i: int| 0 <= i < bodies.push(b).len() implies (#[trigger] bodies.push(
        b,
    )[i]).valid() by {
        if i < bodies.len() {
            assert(bodies[i].valid());
        }
    }
}

/// Whether every body of the sequence is valid.
pub open spec fn all_valid(bodies: Seq<BodyModel>) -> bool {
    forall|i: int| 0 <= i < bodies.len() ==> (#[trigger] bodies[i]).valid()
}

impl Body {
    /// A free body at `pos` moving with `vel`, which are also recorded as
    /// its initial state; `None` unless the radius is positive, the mass
    /// positive and at most [`MAX_MASS`], and the restitution between zero
    /// and one.
    pub fn new(pos: Vec2, vel: Vec2, radius: Fixed, mass: Fixed, restitution: Fixed) -> (r: Option<
        Body,
    >)
        ensures
            r is Some <==> 0 < radius@ && 0 < mass@ <= MAX_MASS && 0 <= restitution@ <= SCALE,
            r matches Some(b) ==> b@ == (BodyModel {
                pos: pos@,
                vel: vel@,
                acc: V2::zero(),
                radius: radius@,
                mass: mass@,
                restitution: restitution@,
                is_goal: false,
                is_player: false,
                fixed: false,
                initial_pos: pos@,
                initial_vel: vel@,
            }),
    {
        if radius.raw > 0 && mass.raw > 0 && mass.raw <= MAX_MASS && restitution.raw >= 0
            && restitution.raw <= SCALE {
            Some(
                Body {
                    pos,
                    vel,
                    acc: Vec2::zero(),
                    radius,
                    mass,
                    restitution,
                    is_goal: false,
                    is_player: false,
                    fixed: false,
                    initial_pos: pos,
                    initial_vel: vel,
                },
            )
        } else {
            None
        }
    }

    /// The same body marked as the player.
    pub fn player(self) -> (r: Body)
        ensures
            r@ == (BodyModel { is_player: true, ..self@ }),
    {
        Body { is_player: true, ..self }
    }

    /// The same body marked as the goal.
    pub fn goal(self) -> (r: Body)
        ensures
            r@ == (BodyModel { is_goal: true, ..self@ }),
    {
        Body { is_goal: true, ..self }
    }

    /// The same body made immovable.
    pub fn pinned(self) -> (r: Body)
        ensures
            r@ == (BodyModel { fixed: true, ..self@ }),
    {
        Body { fixed: true, ..self }
    }

    /// Whether the body meets [`BodyModel::valid`].
    pub fn is_valid(&self) -> (r: bool)
        ensures
            r == self@.valid(),
    {
        self.radius.raw > 0 && self.mass.raw > 0 && self.mass.raw <= MAX_MASS
            && self.restitution.raw >= 0 && self.restitution.raw <= SCALE
    }

    /// The body put back to its recorded initial position and velocity,
    /// with no pending acceleration.
    pub fn restored(self) -> (r: Body)
        ensures
            r@ == self@.restored(),
    {
        Body { pos: self.initial_pos, vel: self.initial_vel, acc: Vec2::zero(), ..self }
    }

    /// Whether the point `p` lies on the body's disk.
    pub fn covers(&self, p: Vec2) -> (r: bool)
        ensures
            r == self@.covers(p@),
    {
        self.pos.sub(p).length().raw <= self.radius.raw
    }
}

/// Mathematical model of a wall.
pub struct WallModel {
    pub start: V2,
    pub end: V2,
    pub is_user_placed: bool,
}

impl WallModel {
    /// The vector from start to end.
    pub open spec fn span(self) -> V2 {
        self.end.sub(self.start)
    }

    /// A wall is valid when its two ends differ.
    pub open spec fn valid(self) -> bool {
        self.span().length() > 0
    }
}

/// An immovable line segment that bodies bounce off.
#[derive(Clone, Copy, Debug, PartialEq, Eq, Structural)]
pub struct Wall {
    pub start: Vec2,
    pub end: Vec2,
    pub is_user_placed: bool,
}

impl View for Wall {
    type V = WallModel;

    open spec fn view(&self) -> WallModel {
        WallModel { start: self.start@, end: self.end@, is_user_placed: self.is_user_placed }
    }
}

/// The models of a sequence of walls, in order.
pub open spec fn wall_models(walls: Seq<Wall>) -> Seq<WallModel> {
    Seq::new(walls.len(), |i: int| walls[i]@)
}

/// Whether every wall of the sequence is valid.
pub open spec fn walls_valid(walls: Seq<WallModel>) -> bool {
    forall|i: int| 0 <= i < walls.len() ==> (#[trigger] walls[i]).valid()
}

/// One more valid wall keeps a sequence of valid walls valid.
pub proof fn lemma_pushed_wall_keeps_valid(walls: Seq<WallModel>, w: WallModel)
    requires
        walls_valid(walls),
        w.valid(),
    ensures
        walls_valid(walls.push(w)),
{
    assert forall|i: int| 0 <= i < walls.push(w).len() implies (#[trigger] walls.push(
        w,
    )[i]).valid() by {
        if i < walls.len() {
            assert(walls[i].valid());
        }
    }
}

impl Wall {
    /// The wall from `start` to `end`; `None` when the segment has no
    /// length.
    pub fn new(start: Vec2, end: Vec2, is_user_placed: bool) -> (r: Option<Wall>)
        ensures
            r is Some <==> (WallModel { start: start@, end: end@, is_user_placed }).valid(),
            r matches Some(w) ==> w@ == (WallModel { start: start@, end: end@, is_user_placed }),
    {
        let w = Wall { start, end, is_user_placed };
        if w.is_valid() {
            Some(w)
        } else {
            None
        }
    }

    /// Whether the wall meets [`WallModel::valid`].
    pub fn is_valid(&self) -> (r: bool)
        ensures
            r == self@.valid(),
    {
        self.end.sub(self.start).length().raw > 0
    }
}

/// Where a spring is fastened: a point of the plane, or the centre of the
/// body with the given index.
pub enum AnchorModel {
    Point(V2),
    Body(int),
}

/// Mathematical model of a spring.
pub struct SpringModel {
    pub body: int,
    pub anchor: AnchorModel,
    pub rest_length: int,
    pub stiffness: int,
}

/// Where a spring is fastened: a point of the plane, or the centre of the
/// body with the given index.
#[derive(Clone, Copy, Debug, PartialEq, Eq)]
pub enum Anchor {
    Point(Vec2),
    Body(usize),
}

impl View for Anchor {
    type V = AnchorModel;

    open spec fn view(&self) -> AnchorModel {
        match self {
            Anchor::Point(p) => AnchorModel::Point(p@),
            Anchor::Body(k) => AnchorModel::Body(*k as int),
        }
    }
}

/// A linear spring that pulls body `body` toward its anchor. Indices that
/// refer to no body make the spring inert.
#[derive(Clone, Copy, Debug, PartialEq, Eq)]
pub struct Spring {
    pub body: usize,
    pub anchor: Anchor,
    pub rest_length: Fixed,
    pub stiffness: Fixed,
}

impl View for Spring {
    type V = SpringModel;

    open spec fn view(&self) -> SpringModel {
        SpringModel {
            body: self.body as int,
            anchor: self.anchor@,
            rest_length: self.rest_length@,
            stiffness: self.stiffness@,
        }
    }
}

/// The models of a sequence of springs, in order.
pub open spec fn spring_models(springs: Seq<Spring>) -> Seq<SpringModel> {
    Seq::new(springs.len(), |i: int| springs[i]@)
}

} // verus!
