//! The four built-in puzzles.
//!
//! In each, the player's ball is body 0 and the goal is the last body; the
//! goal is won by knocking another free body into it. Every body is set
//! up in the state it is recorded with, so that a reset replays the
//! puzzle from its beginning.

use vstd::prelude::*;
use crate::fixed::{Fixed, SCALE};
use crate::vec2::{Vec2, V2, lemma_length_zero};
use crate::body::{
    Body, BodyModel, Wall, WallModel, Spring, SpringModel, Anchor, AnchorModel, models,
    wall_models, all_valid, walls_valid, all_at_start, lemma_pushed_body_keeps_valid,
    lemma_pushed_wall_keeps_valid,
};
use crate::scenario::{Scenario, ScenarioModel};

verus! {

/// Number of built-in puzzles.
pub const LEVEL_COUNT: u32 = 4;

/// Whether the player's ball is body 0 and nothing else, and the goal is
/// the last body and nothing else.
pub open spec fn player_first_goal_last(bodies: Seq<BodyModel>) -> bool {
    forall|i: int|
        0 <= i < bodies.len() ==> ((#[trigger] bodies[i]).is_player <==> i == 0) && (
        bodies[i].is_goal <==> i == bodies.len() - 1)
}

/// Whether every spring pulls on an existing free body.
pub open spec fn springs_attached(s: ScenarioModel) -> bool {
    forall|k: int|
        0 <= k < s.springs.len() ==> 0 <= (#[trigger] s.springs[k]).body < s.bodies.len()
            && !s.bodies[s.springs[k].body].fixed
}

/// The point with the given whole coordinates.
pub open spec fn point(x: int, y: int) -> V2 {
    V2 { x: x * SCALE, y: y * SCALE }
}

/// A free ball at rest in its recorded initial state, with its radius in
/// whole units, its mass in tenths and its restitution in hundredths.
pub open spec fn ball_model(
    pos: V2,
    vel: V2,
    radius: int,
    mass_tenths: int,
    restitution_percent: int,
) -> BodyModel {
    BodyModel {
        pos,
        vel,
        acc: V2::zero(),
        radius: radius * SCALE,
        mass: mass_tenths * (SCALE / 10),
        restitution: restitution_percent * (SCALE / 100),
        is_goal: false,
        is_player: false,
        fixed: false,
        initial_pos: pos,
        initial_vel: vel,
    }
}

/// The player's ball.
pub open spec fn player_model(b: BodyModel) -> BodyModel {
    BodyModel { is_player: true, ..b }
}

/// The goal.
pub open spec fn goal_model(b: BodyModel) -> BodyModel {
    BodyModel { is_goal: true, ..b }
}

/// An immovable blocker.
pub open spec fn blocker_model(b: BodyModel) -> BodyModel {
    BodyModel { fixed: true, ..b }
}

/// A wall of the puzzle between two points with whole coordinates.
pub open spec fn segment_model(x0: int, y0: int, x1: int, y1: int) -> WallModel {
    WallModel { start: point(x0, y0), end: point(x1, y1), is_user_placed: false }
}

/// A spring from body `body` to the point `(x, y)`, all in whole units.
pub open spec fn pendulum_model(
    body: int,
    x: int,
    y: int,
    rest_length: int,
    stiffness: int,
) -> SpringModel {
    SpringModel {
        body,
        anchor: AnchorModel::Point(point(x, y)),
        rest_length: rest_length * SCALE,
        stiffness: stiffness * SCALE,
    }
}

/// First puzzle: a heavy blocker in the middle, one ball to knock into the
/// goal, one slanted wall; two walls may be added.
pub open spec fn level_1_model() -> ScenarioModel {
    ScenarioModel {
        bodies: seq![
            player_model(ball_model(point(220, 150), point(420, 380), 18, 10, 94)),
            blocker_model(ball_model(point(400, 300), point(0, 0), 65, 150, 10)),
            ball_model(point(600, 180), point(0, 0), 24, 13, 91),
            goal_model(ball_model(point(800, 480), point(0, 450), 30, 15, 100)),
        ],
        walls: seq![segment_model(500, 350, 700, 330)],
        springs: Seq::empty(),
        max_walls: 2,
    }
}

/// Second puzzle: two blockers and a chain of two balls before the goal,
/// which falls into the corner; three walls may be added.
pub open spec fn level_2_model() -> ScenarioModel {
    ScenarioModel {
        bodies: seq![
            player_model(ball_model(point(100, 480), point(280, -520), 19, 10, 95)),
            blocker_model(ball_model(point(250, 300), point(0, 0), 55, 200, 5)),
            blocker_model(ball_model(point(550, 250), point(0, 0), 60, 200, 5)),
            ball_model(point(400, 250), point(0, 0), 26, 14, 92),
            ball_model(point(650, 400), point(0, 0), 28, 15, 90),
            goal_model(ball_model(point(850, 520), point(0, 450), 32, 17, 83)),
        ],
        walls: seq![
            segment_model(350, 450, 500, 430),
            segment_model(760, 400, 760, 550),
            segment_model(760, 150, 760, 300),
        ],
        springs: Seq::empty(),
        max_walls: 3,
    }
}

/// Third puzzle: two pendulums swing across the path to the ball that has
/// to be knocked into the goal; three walls may be added.
pub open spec fn level_3_model() -> ScenarioModel {
    ScenarioModel {
        bodies: seq![
            player_model(ball_model(point(100, 500), point(440, -300), 19, 10, 96)),
            ball_model(point(450, 320), point(-130, 0), 38, 22, 78),
            ball_model(point(620, 300), point(0, 0), 41, 26, 78),
            ball_model(point(700, 220), point(0, 0), 27, 16, 50),
            goal_model(ball_model(point(700, 430), point(0, 0), 32, 18, 84)),
        ],
        walls: seq![
            segment_model(600, 400, 600, 700),
            segment_model(660, 480, 760, 480),
            segment_model(680, 250, 770, 250),
        ],
        springs: seq![pendulum_model(1, 450, 60, 300, 230), pendulum_model(2, 620, 60, 210, 95)],
        max_walls: 3,
    }
}

/// Fourth puzzle: three blockers leave narrow passages, and a pendulum,
/// which starts in motion, guards the ball that has to be knocked into
/// the goal; two walls may be added.
pub open spec fn level_4_model() -> ScenarioModel {
    ScenarioModel {
        bodies: seq![
            player_model(ball_model(point(100, 300), point(500, -120), 18, 10, 97)),
            blocker_model(ball_model(point(280, 200), point(0, 0), 70, 250, 8)),
            blocker_model(ball_model(point(280, 420), point(0, 0), 65, 250, 8)),
            blocker_model(ball_model(point(500, 300), point(0, 0), 75, 250, 8)),
            ball_model(point(450, 150), point(100, 0), 35, 20, 90),
            ball_model(point(580, 164), point(0, 0), 27, 15, 92),
            goal_model(ball_model(point(760, 520), point(0, 0), 34, 20, 82)),
        ],
        walls: seq![
            segment_model(380, 320, 480, 280),
            segment_model(730, 570, 730, 300),
            segment_model(550, 190, 650, 190),
        ],
        springs: seq![pendulum_model(4, 450, 50, 100, 110)],
        max_walls: 2,
    }
}

/// The puzzle with the given number, if there is one.
pub open spec fn level_model(number: int) -> Option<ScenarioModel> {
    if number == 1 {
        Some(level_1_model())
    } else if number == 2 {
        Some(level_2_model())
    } else if number == 3 {
        Some(level_3_model())
    } else if number == 4 {
        Some(level_4_model())
    } else {
        None
    }
}

/// Every body of every puzzle is set up in its recorded initial state:
/// the puzzle is what a reset replays.
pub proof fn lemma_levels_are_recorded_as_set_up(number: int)
    ensures
        level_model(number) matches Some(s) ==> all_at_start(s.bodies),
{
}

fn at(x: i64, y: i64) -> (v: Vec2)
    requires
        -1_000_000 <= x <= 1_000_000,
        -1_000_000 <= y <= 1_000_000,
    ensures
        v@ == point(x as int, y as int),
{
    Vec2::new(Fixed::from_int(x), Fixed::from_int(y))
}

fn ball(pos: Vec2, vel: Vec2, radius: i64, mass_tenths: i64, restitution_percent: i64) -> (b: Body)
    requires
        0 < radius <= 1_000,
        0 < mass_tenths <= 1_000,
        0 <= restitution_percent <= 100,
    ensures
        b@.valid(),
        b@ == ball_model(pos@, vel@, radius as int, mass_tenths as int, restitution_percent as int),
{
    assert(SCALE == 1_000_000_000);
    assert((mass_tenths * 1_000_000_000) / 10 == mass_tenths * 100_000_000);
    assert((restitution_percent * 1_000_000_000) / 100 == restitution_percent * 10_000_000);
    Body {
        pos,
        vel,
        acc: Vec2::zero(),
        radius: Fixed::from_int(radius),
        mass: Fixed::from_ratio(mass_tenths, 10),
        restitution: Fixed::from_ratio(restitution_percent, 100),
        is_goal: false,
        is_player: false,
        fixed: false,
        initial_pos: pos,
        initial_vel: vel,
    }
}

fn segment(x0: i64, y0: i64, x1: i64, y1: i64) -> (w: Wall)
    requires
        -1_000_000 <= x0 <= 1_000_000,
        -1_000_000 <= y0 <= 1_000_000,
        -1_000_000 <= x1 <= 1_000_000,
        -1_000_000 <= y1 <= 1_000_000,
        x0 != x1 || y0 != y1,
    ensures
        w@.valid(),
        w@ == segment_model(x0 as int, y0 as int, x1 as int, y1 as int),
{
    let w = Wall { start: at(x0, y0), end: at(x1, y1), is_user_placed: false };
    proof {
        lemma_length_zero(w@.span());
    }
    w
}

fn pendulum(body: usize, x: i64, y: i64, rest_length: i64, stiffness: i64) -> (s: Spring)
    requires
        -1_000_000 <= x <= 1_000_000,
        -1_000_000 <= y <= 1_000_000,
        -1_000_000 <= rest_length <= 1_000_000,
        -1_000_000 <= stiffness <= 1_000_000,
    ensures
        s@ == pendulum_model(body as int, x as int, y as int, rest_length as int, stiffness as int),
{
    Spring {
        body,
        anchor: Anchor::Point(at(x, y)),
        rest_length: Fixed::from_int(rest_length),
        stiffness: Fixed::from_int(stiffness),
    }
}

fn put(bodies: &mut Vec<Body>, b: Body)
    requires
        all_valid(models(old(bodies)@)),
        b@.valid(),
    ensures
        final(bodies)@ == old(bodies)@.push(b),
        all_valid(models(final(bodies)@)),
{
    bodies.push(b);
    proof {
        assert(models(bodies@) =~= models(old(bodies)@).push(b@));
        lemma_pushed_body_keeps_valid(models(old(bodies)@), b@);
    }
}

fn build(walls: &mut Vec<Wall>, w: Wall)
    requires
        walls_valid(wall_models(old(walls)@)),
        w@.valid(),
    ensures
        final(walls)@ == old(walls)@.push(w),
        walls_valid(wall_models(final(walls)@)),
{
    walls.push(w);
    proof {
        assert(wall_models(walls@) =~= wall_models(old(walls)@).push(w@));
        lemma_pushed_wall_keeps_valid(wall_models(old(walls)@), w@);
    }
}

/// Builds the first puzzle.
pub fn level_1() -> (s: Scenario)
    ensures
        s@ == level_1_model(),
        s@.valid(),
        all_at_start(s@.bodies),
        player_first_goal_last(s@.bodies),
{
    let mut bodies: Vec<Body> = Vec::new();
    let mut walls: Vec<Wall> = Vec::new();
    put(&mut bodies, ball(at(220, 150), at(420, 380), 18, 10, 94).player());
    put(&mut bodies, ball(at(400, 300), at(0, 0), 65, 150, 10).pinned());
    put(&mut bodies, ball(at(600, 180), at(0, 0), 24, 13, 91));
    put(&mut bodies, ball(at(800, 480), at(0, 450), 30, 15, 100).goal());
    build(&mut walls, segment(500, 350, 700, 330));
    let s = Scenario { bodies, walls, springs: Vec::new(), max_walls: 2 };
    assert(s@.bodies =~= level_1_model().bodies);
    assert(s@.walls =~= level_1_model().walls);
    assert(s@.springs =~= level_1_model().springs);
    s
}

/// Builds the second puzzle.
pub fn level_2() -> (s: Scenario)
    ensures
        s@ == level_2_model(),
        s@.valid(),
        all_at_start(s@.bodies),
        player_first_goal_last(s@.bodies),
{
    let mut bodies: Vec<Body> = Vec::new();
    let mut walls: Vec<Wall> = Vec::new();
    put(&mut bodies, ball(at(100, 480), at(280, -520), 19, 10, 95).player());
    put(&mut bodies, ball(at(250, 300), at(0, 0), 55, 200, 5).pinned());
    put(&mut bodies, ball(at(550, 250), at(0, 0), 60, 200, 5).pinned());
    put(&mut bodies, ball(at(400, 250), at(0, 0), 26, 14, 92));
    put(&mut bodies, ball(at(650, 400), at(0, 0), 28, 15, 90));
    put(&mut bodies, ball(at(850, 520), at(0, 450), 32, 17, 83).goal());
    build(&mut walls, segment(350, 450, 500, 430));
    build(&mut walls, segment(760, 400, 760, 550));
    build(&mut walls, segment(760, 150, 760, 300));
    let s = Scenario { bodies, walls, springs: Vec::new(), max_walls: 3 };
    assert(s@.bodies =~= level_2_model().bodies);
    assert(s@.walls =~= level_2_model().walls);
    assert(s@.springs =~= level_2_model().springs);
    s
}

/// Builds the third puzzle.
pub fn level_3() -> (s: Scenario)
    ensures
        s@ == level_3_model(),
        s@.valid(),
        all_at_start(s@.bodies),
        player_first_goal_last(s@.bodies),
        springs_attached(s@),
{
    let mut bodies: Vec<Body> = Vec::new();
    let mut walls: Vec<Wall> = Vec::new();
    let mut springs: Vec<Spring> = Vec::new();
    put(&mut bodies, ball(at(100, 500), at(440, -300), 19, 10, 96).player());
    put(&mut bodies, ball(at(450, 320), at(-130, 0), 38, 22, 78));
    springs.push(pendulum(1, 450, 60, 300, 230));
    put(&mut bodies, ball(at(620, 300), at(0, 0), 41, 26, 78));
    springs.push(pendulum(2, 620, 60, 210, 95));
    put(&mut bodies, ball(at(700, 220), at(0, 0), 27, 16, 50));
    put(&mut bodies, ball(at(700, 430), at(0, 0), 32, 18, 84).goal());
    build(&mut walls, segment(600, 400, 600, 700));
    build(&mut walls, segment(660, 480, 760, 480));
    build(&mut walls, segment(680, 250, 770, 250));
    let s = Scenario { bodies, walls, springs, max_walls: 3 };
    assert(s@.bodies =~= level_3_model().bodies);
    assert(s@.walls =~= level_3_model().walls);
    assert(s@.springs =~= level_3_model().springs);
    s
}

/// Builds the fourth puzzle.
pub fn level_4() -> (s: Scenario)
    ensures
        s@ == level_4_model(),
        s@.valid(),
        all_at_start(s@.bodies),
        player_first_goal_last(s@.bodies),
        springs_attached(s@),
{
    let mut bodies: Vec<Body> = Vec::new();
    let mut walls: Vec<Wall> = Vec::new();
    let mut springs: Vec<Spring> = Vec::new();
    put(&mut bodies, ball(at(100, 300), at(500, -120), 18, 10, 97).player());
    put(&mut bodies, ball(at(280, 200), at(0, 0), 70, 250, 8).pinned());
    put(&mut bodies, ball(at(280, 420), at(0, 0), 65, 250, 8).pinned());
    put(&mut bodies, ball(at(500, 300), at(0, 0), 75, 250, 8).pinned());
    put(&mut bodies, ball(at(450, 150), at(100, 0), 35, 20, 90));
    springs.push(pendulum(4, 450, 50, 100, 110));
    put(&mut bodies, ball(at(580, 164), at(0, 0), 27, 15, 92));
    put(&mut bodies, ball(at(760, 520), at(0, 0), 34, 20, 82).goal());
    build(&mut walls, segment(380, 320, 480, 280));
    build(&mut walls, segment(730, 570, 730, 300));
    build(&mut walls, segment(550, 190, 650, 190));
    let s = Scenario { bodies, walls, springs, max_walls: 2 };
    assert(s@.bodies =~= level_4_model().bodies);
    assert(s@.walls =~= level_4_model().walls);
    assert(s@.springs =~= level_4_model().springs);
    s
}

/// Builds the puzzle with the given number; there is none before the
/// first or beyond the last.
pub fn level(number: u32) -> (r: Option<Scenario>)
    ensures
        r is Some <==> 1 <= number <= LEVEL_COUNT,
        r is Some <==> level_model(number as int) is Some,
        r matches Some(s) ==> level_model(number as int) == Some(s@) && s@.valid()
            && all_at_start(s@.bodies) && player_first_goal_last(s@.bodies),
{
    if number == 1 {
        Some(level_1())
    } else if number == 2 {
        Some(level_2())
    } else if number == 3 {
        Some(level_3())
    } else if number == 4 {
        Some(level_4())
    } else {
        None
    }
}

} // verus!
