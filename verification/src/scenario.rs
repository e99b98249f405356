//! Scenarios: the bodies, walls and springs of one puzzle, with the number
//! of walls the player may add.

use vstd::prelude::*;
use crate::body::{
    Body, BodyModel, Wall, WallModel, Spring, SpringModel, models, wall_models, spring_models,
    all_valid, walls_valid,
};

verus! {

/// Mathematical model of a scenario.
pub struct ScenarioModel {
    pub bodies: Seq<BodyModel>,
    pub walls: Seq<WallModel>,
    pub springs: Seq<SpringModel>,
    pub max_walls: int,
}

impl ScenarioModel {
    /// A scenario is valid when all its bodies and all its walls are.
    /// Springs are never invalid: one that refers to no body is inert.
    pub open spec fn valid(self) -> bool {
        all_valid(self.bodies) && walls_valid(self.walls)
    }
}

/// Why a scenario was refused.
#[derive(Clone, Copy, Debug, PartialEq, Eq)]
pub enum ScenarioError {
    /// The body with this index has a radius or mass that is not positive,
    /// a mass above the limit, or a restitution outside zero to one.
    InvalidBody(usize),
    /// The wall with this index has no length.
    DegenerateWall(usize),
}

/// One puzzle as it is set up.
#[derive(Debug)]
pub struct Scenario {
    pub bodies: Vec<Body>,
    pub walls: Vec<Wall>,
    pub springs: Vec<Spring>,
    pub max_walls: usize,
}

impl View for Scenario {
    type V = ScenarioModel;

    open spec fn view(&self) -> ScenarioModel {
        ScenarioModel {
            bodies: models(self.bodies@),
            walls: wall_models(self.walls@),
            springs: spring_models(self.springs@),
            max_walls: self.max_walls as int,
        }
    }
}

/// Index of the first invalid body, if there is one.
pub fn first_invalid_body(bodies: &Vec<Body>) -> (r: Option<usize>)
    ensures
        r is None <==> all_valid(models(bodies@)),
        r matches Some(i) ==> i < bodies@.len() && !bodies@[i as int]@.valid() && forall|j: int|
            0 <= j < i ==> (#[trigger] bodies@[j])@.valid(),
{
    let mut i: usize = 0;
    while i < bodies.len()
        invariant
            i <= bodies@.len(),
            forall|j: int| 0 <= j < i ==> (#[trigger] bodies@[j])@.valid(),
        decreases bodies@.len() - i,
    {
        if !bodies[i].is_valid() {
            assert(!models(bodies@)[i as int].valid());
            return Some(i);
        }
        i = i + 1;
    }
    assert forall|j: int| 0 <= j < bodies@.len() implies (#[trigger] models(
        bodies@,
    )[j]).valid() by {
        assert(bodies@[j]@.valid());
    }
    None
}

/// Index of the first wall without length, if there is one.
pub fn first_degenerate_wall(walls: &Vec<Wall>) -> (r: Option<usize>)
    ensures
        r is None <==> walls_valid(wall_models(walls@)),
        r matches Some(i) ==> i < walls@.len() && !walls@[i as int]@.valid() && forall|j: int|
            0 <= j < i ==> (#[trigger] walls@[j])@.valid(),
{
    let mut i: usize = 0;
    while i < walls.len()
        invariant
            i <= walls@.len(),
            forall|j: int| 0 <= j < i ==> (#[trigger] walls@[j])@.valid(),
        decreases walls@.len() - i,
    {
        if !walls[i].is_valid() {
            assert(!wall_models(walls@)[i as int].valid());
            return Some(i);
        }
        i = i + 1;
    }
    assert forall|j: int| 0 <= j < walls@.len() implies (#[trigger] wall_models(
        walls@,
    )[j]).valid() by {
        assert(walls@[j]@.valid());
    }
    None
}

impl Scenario {
    /// A scenario with nothing in it.
    pub fn empty(max_walls: usize) -> (r: Scenario)
        ensures
            r@ == (ScenarioModel {
                bodies: Seq::empty(),
                walls: Seq::empty(),
                springs: Seq::empty(),
                max_walls: max_walls as int,
            }),
            r@.valid(),
    {
        let r = Scenario { bodies: Vec::new(), walls: Vec::new(), springs: Vec::new(), max_walls };
        assert(r@.bodies =~= Seq::empty());
        assert(r@.walls =~= Seq::empty());
        assert(r@.springs =~= Seq::empty());
        r
    }

    /// Accepts a valid scenario. Otherwise names the first invalid body,
    /// or, when all bodies are valid, the first wall without length.
    pub fn check(&self) -> (r: Result<(), ScenarioError>)
        ensures
            r is Ok <==> self@.valid(),
            r matches Err(ScenarioError::InvalidBody(i)) ==> i < self.bodies@.len()
                && !self@.bodies[i as int].valid() && forall|j: int|
                0 <= j < i ==> (#[trigger] self@.bodies[j]).valid(),
            r matches Err(ScenarioError::DegenerateWall(i)) ==> all_valid(self@.bodies) && i
                < self.walls@.len() && !self@.walls[i as int].valid() && forall|j: int|
                0 <= j < i ==> (#[trigger] self@.walls[j]).valid(),
    {
        match first_invalid_body(&self.bodies) {
            Some(i) => Err(ScenarioError::InvalidBody(i)),
            None => match first_degenerate_wall(&self.walls) {
                Some(i) => Err(ScenarioError::DegenerateWall(i)),
                None => Ok(()),
            },
        }
    }
}

} // verus!
