//! The simulation driver: the state of one game and the events that
//! change it.
//!
//! A game is being planned, running or won. While it is planned the
//! bodies rest and walls may be added; once launched it runs, one step per
//! frame, until a winning contact; after a pause the next puzzle is set
//! up.

use vstd::prelude::*;
use crate::fixed::{Fixed, SCALE};
use crate::vec2::{Vec2, V2};
use crate::body::{
    Body, BodyModel, Wall, WallModel, Spring, SpringModel, models, wall_models, spring_models,
    all_valid, walls_valid, all_moved_from, lemma_pushed_body_keeps_valid,
    lemma_pushed_wall_keeps_valid,
};
use crate::laws::lemma_step_moves_bodies;
use crate::boundary::{Arena, ArenaModel, all_contained, resolve_boundaries};
use crate::integrator::{springs_applied, all_integrated, apply_springs, integrate_all};
use crate::collision::{all_pairs_handled, resolve_collisions};
use crate::walls::{all_deflected, resolve_walls};
use crate::scenario::{
    Scenario, ScenarioModel, ScenarioError, first_invalid_body, first_degenerate_wall,
};
use crate::levels::{level, level_model, LEVEL_COUNT};

verus! {

/// Longest time step, in microseconds: 16 milliseconds.
pub const MAX_STEP: u64 = 16_000;

/// Raw units of a second per microsecond.
pub const RAW_PER_MICROSECOND: i64 = 1_000;

/// How long a won game is shown before the next puzzle, in microseconds.
pub const WIN_DELAY: u64 = 2_000_000;

/// A wall drawn by the player must be longer than this, in raw units.
pub const MIN_WALL_LENGTH: i64 = 20 * SCALE;

/// Pull on a dragged body per unit of distance from the pointer, raw.
pub const DRAG_STRENGTH: i64 = 15 * SCALE;

/// Factor by which a dragged body keeps its velocity each frame, raw.
pub const DRAG_DAMPING: i64 = 890_000_000;

/// Speed of a flung body per unit of pull, raw.
pub const FLING_STRENGTH: i64 = 2 * SCALE;

/// Phase of the game.
#[derive(Clone, Copy, Debug, PartialEq, Eq, Structural)]
pub enum GameState {
    /// Bodies rest; the player adds walls.
    Planning,
    /// The physics advances every frame.
    Running,
    /// A winning contact has occurred; the scene is frozen.
    Won,
}

/// The predicate that holds of the walls the player added.
pub open spec fn placed_by_user() -> spec_fn(WallModel) -> bool {
    |w: WallModel| w.is_user_placed
}

/// The predicate that holds of the walls that belong to the puzzle.
pub open spec fn part_of_puzzle() -> spec_fn(WallModel) -> bool {
    |w: WallModel| !w.is_user_placed
}

/// What the pointer holds in free play.
pub enum HoldModel {
    /// Nothing.
    Free,
    /// The body with this index, which follows the pointer.
    Dragging(int),
    /// The body with this index, pulled back from the point where it was
    /// grabbed, to be flung on release.
    Pulling(int, V2),
}

/// What the pointer holds in free play.
#[derive(Clone, Copy, Debug, PartialEq, Eq)]
pub enum Hold {
    /// Nothing.
    Free,
    /// The body with this index, which follows the pointer.
    Dragging(usize),
    /// The body with this index, pulled back from the point where it was
    /// grabbed, to be flung on release.
    Pulling(usize, Vec2),
}

impl View for Hold {
    type V = HoldModel;

    open spec fn view(&self) -> HoldModel {
        match self {
            Hold::Free => HoldModel::Free,
            Hold::Dragging(i) => HoldModel::Dragging(*i as int),
            Hold::Pulling(i, from) => HoldModel::Pulling(*i as int, from@),
        }
    }
}

/// Whether `i` is the index of the first of the bodies whose disk covers
/// `p`.
pub open spec fn is_first_at(bodies: Seq<BodyModel>, p: V2, i: int) -> bool {
    &&& 0 <= i < bodies.len()
    &&& bodies[i].covers(p)
    &&& forall|j: int| 0 <= j < i ==> !(#[trigger] bodies[j]).covers(p)
}

/// Index of the first of the bodies whose disk covers `p`, if any does.
pub open spec fn body_at(bodies: Seq<BodyModel>, p: V2) -> Option<int> {
    if exists|i: int| is_first_at(bodies, p, i) {
        Some(choose|i: int| is_first_at(bodies, p, i))
    } else {
        None
    }
}

/// The model of an optional index.
pub open spec fn index_model(i: Option<usize>) -> Option<int> {
    match i {
        Some(v) => Some(v as int),
        None => None,
    }
}

/// Mathematical model of an event.
pub enum EventModel {
    Launch,
    Reset,
    GoBack,
    GoForward,
    PlayAgain,
    RestartLevel,
    FreePlay,
    ClearUserWalls,
    Resize(ArenaModel),
    SetGravity(V2),
    Add(BodyModel),
    Press(V2, bool),
    Hover(V2),
    Release(V2),
}

/// What the player, or the window, did since the last frame.
#[derive(Clone, Copy, Debug, PartialEq, Eq)]
pub enum Event {
    /// Start the planned game.
    Launch,
    /// Put the game back to planning.
    Reset,
    /// Step back one puzzle.
    GoBack,
    /// Step forward one puzzle.
    GoForward,
    /// Start over from the first puzzle.
    PlayAgain,
    /// Set the current puzzle up afresh.
    RestartLevel,
    /// Leave the puzzles for an empty scene.
    FreePlay,
    /// Remove the walls the player added.
    ClearUserWalls,
    /// The arena has this extent now.
    Resize(Arena),
    /// The gravity is this now.
    SetGravity(Vec2),
    /// Add this body.
    Add(Body),
    /// The pointer went down here; with the flag set, to pull a body back.
    Press(Vec2, bool),
    /// The pointer is here.
    Hover(Vec2),
    /// The pointer went up here.
    Release(Vec2),
}

impl View for Event {
    type V = EventModel;

    open spec fn view(&self) -> EventModel {
        match self {
            Event::Launch => EventModel::Launch,
            Event::Reset => EventModel::Reset,
            Event::GoBack => EventModel::GoBack,
            Event::GoForward => EventModel::GoForward,
            Event::PlayAgain => EventModel::PlayAgain,
            Event::RestartLevel => EventModel::RestartLevel,
            Event::FreePlay => EventModel::FreePlay,
            Event::ClearUserWalls => EventModel::ClearUserWalls,
            Event::Resize(a) => EventModel::Resize(a@),
            Event::SetGravity(g) => EventModel::SetGravity(g@),
            Event::Add(b) => EventModel::Add(b@),
            Event::Press(p, pull) => EventModel::Press(p@, *pull),
            Event::Hover(p) => EventModel::Hover(p@),
            Event::Release(p) => EventModel::Release(p@),
        }
    }
}

/// The models of a sequence of events, in order.
pub open spec fn event_models(events: Seq<Event>) -> Seq<EventModel> {
    Seq::new(events.len(), |i: int| events[i]@)
}

/// The raw time step for a frame that comes `elapsed` microseconds after
/// the one before: the elapsed time, but no more than [`MAX_STEP`].
pub open spec fn step_raw(elapsed: int) -> int {
    RAW_PER_MICROSECOND * if elapsed <= MAX_STEP {
        elapsed
    } else {
        MAX_STEP as int
    }
}

/// Mathematical model of a game.
pub struct SimModel {
    pub bodies: Seq<BodyModel>,
    pub walls: Seq<WallModel>,
    pub springs: Seq<SpringModel>,
    pub gravity: V2,
    pub arena: ArenaModel,
    pub level: int,
    pub state: GameState,
    pub placing_wall: Option<V2>,
    pub max_walls: int,
    pub won_at: Option<int>,
    pub held: HoldModel,
}

impl SimModel {
    /// Every body and every wall is valid.
    pub open spec fn wf(self) -> bool {
        all_valid(self.bodies) && walls_valid(self.walls)
    }

    /// Number of walls the player has added.
    pub open spec fn user_walls(self) -> int {
        self.walls.filter(placed_by_user()).len() as int
    }

    /// The game with a scenario put in place, ready for planning. Gravity,
    /// arena and level number are kept.
    pub open spec fn loaded(self, s: ScenarioModel) -> SimModel {
        SimModel {
            bodies: s.bodies,
            walls: s.walls,
            springs: s.springs,
            max_walls: s.max_walls,
            state: GameState::Planning,
            placing_wall: None,
            won_at: None,
            held: HoldModel::Free,
            ..self
        }
    }

    /// The game with the puzzle with the given number set up, ready for
    /// planning. A number that names no puzzle gives an empty scene with
    /// the wall budget unchanged. The level number of the game is not
    /// touched: see [`SimModel::started`].
    pub open spec fn set_up(self, number: int) -> SimModel {
        let s = match level_model(number) {
            Some(s) => s,
            None => ScenarioModel {
                bodies: Seq::empty(),
                walls: Seq::empty(),
                springs: Seq::empty(),
                max_walls: self.max_walls,
            },
        };
        self.loaded(s)
    }

    /// The game at the start of the level with the given number: the
    /// number is taken, and the puzzle of that number is set up.
    pub open spec fn started(self, number: int) -> SimModel {
        (SimModel { level: number, ..self }).set_up(number)
    }

    /// The bodies of a running game after the first three stages of a
    /// frame: springs, integration, arena boundaries.
    pub open spec fn bodies_after_boundaries(self, dt: int) -> Seq<BodyModel> {
        let pulled = springs_applied(self.bodies, self.springs, self.springs.len() as int);
        let moved = all_integrated(pulled, self.gravity, dt);
        all_contained(moved, self.arena)
    }

    /// The bodies of a running game after the first four stages of a
    /// frame: springs, integration, arena boundaries, pairwise collisions.
    pub open spec fn bodies_after_contacts(self, dt: int) -> Seq<BodyModel> {
        all_pairs_handled(self.bodies_after_boundaries(dt)).bodies
    }

    /// The game after one frame of physics at time `now`. Nothing happens
    /// unless the game is running. Otherwise the stages follow in fixed
    /// order: springs, integration, arena boundaries, pairwise collisions,
    /// walls; and a winning contact ends the game and records the time.
    pub open spec fn stepped(self, dt: int, now: int) -> SimModel {
        if self.state != GameState::Running {
            self
        } else {
            let kept = self.bodies_after_boundaries(dt);
            let contacts = all_pairs_handled(kept);
            SimModel {
                bodies: all_deflected(contacts.bodies, self.walls),
                state: if contacts.goal_hit {
                    GameState::Won
                } else {
                    GameState::Running
                },
                won_at: if contacts.goal_hit {
                    Some(now)
                } else {
                    self.won_at
                },
                ..self
            }
        }
    }

    /// The game put back to planning: every body in its recorded initial
    /// state, no win recorded. Walls and springs stay.
    pub open spec fn reset(self) -> SimModel {
        SimModel {
            bodies: Seq::new(self.bodies.len(), |i: int| self.bodies[i].restored()),
            state: GameState::Planning,
            won_at: None,
            ..self
        }
    }

    /// The game after the launch trigger: a planned game starts running.
    pub open spec fn launched(self) -> SimModel {
        if self.state == GameState::Planning {
            SimModel { state: GameState::Running, ..self }
        } else {
            self
        }
    }

    /// Whether a win was recorded more than [`WIN_DELAY`] before `now`.
    pub open spec fn win_shown(self, now: int) -> bool {
        self.won_at matches Some(t) && now - t > WIN_DELAY
    }

    /// The game after the check for progress at time `now`: once a win has
    /// been shown long enough, the next puzzle is set up; past the last
    /// puzzle the game simply stays won.
    pub open spec fn advanced(self, now: int) -> SimModel {
        if !self.win_shown(now) {
            self
        } else if self.level <= LEVEL_COUNT {
            self.started(self.level + 1)
        } else {
            SimModel { state: GameState::Won, ..self }
        }
    }

    /// The game after stepping back one puzzle, which is possible while
    /// planning any puzzle but the first.
    pub open spec fn gone_back(self) -> SimModel {
        if self.state == GameState::Planning && self.level > 1 {
            self.started(self.level - 1)
        } else {
            self
        }
    }

    /// The game after stepping forward one puzzle, which is possible while
    /// planning any puzzle but the last.
    pub open spec fn gone_forward(self) -> SimModel {
        if self.state == GameState::Planning && self.level < LEVEL_COUNT {
            self.started(self.level + 1)
        } else {
            self
        }
    }

    /// The game started over from the first puzzle, which is possible once
    /// the game is won past the last puzzle.
    pub open spec fn played_again(self) -> SimModel {
        if self.state == GameState::Won && self.level > LEVEL_COUNT {
            self.started(1)
        } else {
            self
        }
    }

    /// The game without the walls the player added, in the order they had.
    pub open spec fn user_walls_cleared(self) -> SimModel {
        SimModel { walls: self.walls.filter(part_of_puzzle()), ..self }
    }

    /// Whether a wall may be started at `p`: the game is being planned,
    /// the wall budget is not used up, and `p` is right of the arena's
    /// left edge.
    pub open spec fn may_start_wall(self, p: V2) -> bool {
        &&& self.state == GameState::Planning
        &&& self.user_walls() < self.max_walls
        &&& p.x > self.arena.left
    }

    /// The game after the pointer was pressed at `p`.
    pub open spec fn pressed(self, p: V2) -> SimModel {
        if self.may_start_wall(p) {
            SimModel { placing_wall: Some(p), ..self }
        } else {
            self
        }
    }

    /// The game after the pointer was released at `p`: a wall that was
    /// started is added if it is longer than [`MIN_WALL_LENGTH`], and
    /// dropped if not.
    pub open spec fn released(self, p: V2) -> SimModel {
        match self.placing_wall {
            Some(start) if self.state == GameState::Planning => {
                let w = WallModel { start, end: p, is_user_placed: true };
                SimModel {
                    walls: if w.span().length() > MIN_WALL_LENGTH {
                        self.walls.push(w)
                    } else {
                        self.walls
                    },
                    placing_wall: None,
                    ..self
                }
            },
            _ => self,
        }
    }

    /// Whether the game is free play: no puzzle is set up, and the bodies
    /// may be moved by hand.
    pub open spec fn is_free_play(self) -> bool {
        self.level == 0
    }

    /// The game after the pointer tried to grab a body at `p`, to pull it
    /// back or else to drag it. In free play, while no wall is being
    /// drawn, the first body under the pointer is then held.
    pub open spec fn grabbed(self, p: V2, pull: bool) -> SimModel {
        match body_at(self.bodies, p) {
            Some(i) if self.is_free_play() && self.placing_wall is None => SimModel {
                held: if pull {
                    HoldModel::Pulling(i, p)
                } else {
                    HoldModel::Dragging(i)
                },
                ..self
            },
            _ => self,
        }
    }

    /// The game after a frame in which the pointer stayed down at `p`: a
    /// body that is being dragged is dragged toward `p`, if the game is
    /// running.
    pub open spec fn held_at(self, p: V2) -> SimModel {
        match self.held {
            HoldModel::Dragging(i) => self.dragged(i, p),
            _ => self,
        }
    }

    /// The game after the pointer let go at `p`: a body that was pulled
    /// back is flung, if the game is running, and nothing is held any
    /// more.
    pub open spec fn let_go(self, p: V2) -> SimModel {
        match self.held {
            HoldModel::Pulling(i, from) => SimModel {
                held: HoldModel::Free,
                ..self.flung(i, from, p)
            },
            _ => SimModel { held: HoldModel::Free, ..self },
        }
    }

    /// The game after one event. A press grabs a body if it can, and
    /// starts a wall if not; a release lets go of a held body and ends a
    /// wall.
    pub open spec fn handled(self, e: EventModel) -> SimModel {
        match e {
            EventModel::Launch => self.launched(),
            EventModel::Reset => self.reset(),
            EventModel::GoBack => self.gone_back(),
            EventModel::GoForward => self.gone_forward(),
            EventModel::PlayAgain => self.played_again(),
            EventModel::RestartLevel => self.set_up(self.level),
            EventModel::FreePlay => self.started(0),
            EventModel::ClearUserWalls => self.user_walls_cleared(),
            EventModel::Resize(arena) => SimModel { arena, ..self },
            EventModel::SetGravity(gravity) => SimModel { gravity, ..self },
            EventModel::Add(b) => self.with_body(b),
            EventModel::Press(p, pull) => if self.grabbed(p, pull).held != HoldModel::Free {
                self.grabbed(p, pull)
            } else {
                self.pressed(p)
            },
            EventModel::Hover(p) => self.held_at(p),
            EventModel::Release(p) => self.let_go(p).released(p),
        }
    }

    /// The game after the first `k` of the events, in order.
    pub open spec fn handled_all(self, events: Seq<EventModel>, k: int) -> SimModel
        decreases k,
    {
        if k <= 0 {
            self
        } else {
            self.handled_all(events, k - 1).handled(events[k - 1])
        }
    }

    /// The game after one frame at time `now`, which comes `elapsed`
    /// microseconds after the frame before: first the check for progress
    /// after a win, then the events in their order, then the physics.
    pub open spec fn framed(self, events: Seq<EventModel>, elapsed: int, now: int) -> SimModel {
        self.advanced(now).handled_all(events, events.len() as int).stepped(step_raw(elapsed), now)
    }

    /// The game with one more body, if the body is valid.
    pub open spec fn with_body(self, b: BodyModel) -> SimModel {
        if b.valid() {
            SimModel { bodies: self.bodies.push(b), ..self }
        } else {
            self
        }
    }

    /// The game with one more wall, if the wall is valid.
    pub open spec fn with_wall(self, w: WallModel) -> SimModel {
        if w.valid() {
            SimModel { walls: self.walls.push(w), ..self }
        } else {
            self
        }
    }

    /// The game with one more spring.
    pub open spec fn with_spring(self, s: SpringModel) -> SimModel {
        SimModel { springs: self.springs.push(s), ..self }
    }

    /// Whether the player can move body `index` by hand now: the game is
    /// running, and the index names an existing free body. While a game
    /// is planned or won its bodies rest, whatever the pointer does.
    pub open spec fn movable(self, index: int) -> bool {
        &&& self.state == GameState::Running
        &&& 0 <= index < self.bodies.len()
        &&& !self.bodies[index].fixed
    }

    /// The game after body `index` was dragged toward `target` for one
    /// frame: the body is pulled with a force proportional to its distance
    /// from the target, and slowed down. Nothing changes unless the body
    /// is movable.
    pub open spec fn dragged(self, index: int, target: V2) -> SimModel {
        if self.movable(index) {
            let b = self.bodies[index];
            let pulled = BodyModel {
                acc: b.acc.add(target.sub(b.pos).mul(DRAG_STRENGTH as int)),
                vel: b.vel.mul(DRAG_DAMPING as int),
                ..b
            };
            SimModel { bodies: self.bodies.update(index, pulled), ..self }
        } else {
            self
        }
    }

    /// The game after body `index` was pulled back from `from` to `to` and
    /// let go: it flies off opposite to the pull. Nothing changes unless
    /// the body is movable.
    pub open spec fn flung(self, index: int, from: V2, to: V2) -> SimModel {
        if self.movable(index) {
            let b = self.bodies[index];
            let thrown = BodyModel { vel: from.sub(to).mul(FLING_STRENGTH as int), ..b };
            SimModel { bodies: self.bodies.update(index, thrown), ..self }
        } else {
            self
        }
    }
}

/// The model of an optional point.
pub open spec fn point_model(p: Option<Vec2>) -> Option<V2> {
    match p {
        Some(v) => Some(v@),
        None => None,
    }
}

/// The model of an optional time.
pub open spec fn time_model(t: Option<u64>) -> Option<int> {
    match t {
        Some(v) => Some(v as int),
        None => None,
    }
}

/// One game: the entities of the current puzzle and the phase of play.
#[derive(Debug)]
pub struct Simulation {
    bodies: Vec<Body>,
    walls: Vec<Wall>,
    springs: Vec<Spring>,
    gravity: Vec2,
    arena: Arena,
    level: u32,
    state: GameState,
    placing_wall: Option<Vec2>,
    max_walls: usize,
    won_at: Option<u64>,
    held: Hold,
}

impl View for Simulation {
    type V = SimModel;

    closed spec fn view(&self) -> SimModel {
        SimModel {
            bodies: models(self.bodies@),
            walls: wall_models(self.walls@),
            springs: spring_models(self.springs@),
            gravity: self.gravity@,
            arena: self.arena@,
            level: self.level as int,
            state: self.state,
            placing_wall: point_model(self.placing_wall),
            max_walls: self.max_walls as int,
            won_at: time_model(self.won_at),
            held: self.held@,
        }
    }
}

/// There is at most one first body under a point.
pub proof fn lemma_first_at_is_unique(bodies: Seq<BodyModel>, p: V2, i: int, k: int)
    requires
        is_first_at(bodies, p, i),
        is_first_at(bodies, p, k),
    ensures
        i == k,
{
}

/// Replacing a body by a valid one keeps a sequence of valid bodies
/// valid.
pub proof fn lemma_update_keeps_valid(bodies: Seq<BodyModel>, i: int, b: BodyModel)
    requires
        0 <= i < bodies.len(),
        all_valid(bodies) ==> b.valid(),
    ensures
        all_valid(bodies) ==> all_valid(bodies.update(i, b)),
{
    if all_valid(bodies) {
        assert forall|j: int| 0 <= j < bodies.len() implies (#[trigger] bodies.update(
            i,
            b,
        )[j]).valid() by {
            if j != i {
                assert(bodies[j].valid());
            }
        }
    }
}

/// The time step for a frame that comes `elapsed` microseconds after the
/// one before: the elapsed time in seconds, but no more than [`MAX_STEP`].
pub fn step_length(elapsed: u64) -> (dt: Fixed)
    ensures
        dt@ == step_raw(elapsed as int),
{
    let micros: u64 = if elapsed <= MAX_STEP {
        elapsed
    } else {
        MAX_STEP
    };
    Fixed::from_raw(micros as i64 * RAW_PER_MICROSECOND)
}

impl Simulation {
    /// Whether the game is well formed: every body and every wall is
    /// valid. Every way to make a game gives a well-formed one, and every
    /// operation keeps it so.
    pub open spec fn wf(&self) -> bool {
        self@.wf()
    }

    /// Whether the game is well formed. Every game made and changed by
    /// the operations of this type is.
    pub fn is_well_formed(&self) -> (r: bool)
        ensures
            r == self.wf(),
    {
        first_invalid_body(&self.bodies).is_none() && first_degenerate_wall(&self.walls).is_none()
    }

    /// The game that [`Default`] gives: the first puzzle, being planned.
    pub open spec fn initial() -> SimModel {
        (SimModel {
            bodies: Seq::empty(),
            walls: Seq::empty(),
            springs: Seq::empty(),
            gravity: V2 { x: 0, y: 400 * SCALE },
            arena: ArenaModel {
                left: 210 * SCALE,
                top: 0,
                right: 1010 * SCALE,
                bottom: 600 * SCALE,
            },
            level: 0,
            state: GameState::Planning,
            placing_wall: None,
            max_walls: 3,
            won_at: None,
            held: HoldModel::Free,
        }).started(1)
    }

    /// An empty game in the given arena under the given gravity, being
    /// planned, with no puzzle set up and no walls allowed.
    pub fn new(arena: Arena, gravity: Vec2) -> (r: Simulation)
        ensures
            r.wf(),
            r@ == (SimModel {
                bodies: Seq::empty(),
                walls: Seq::empty(),
                springs: Seq::empty(),
                gravity: gravity@,
                arena: arena@,
                level: 0,
                state: GameState::Planning,
                placing_wall: None,
                max_walls: 0,
                won_at: None,
                held: HoldModel::Free,
            }),
    {
        let r = Simulation {
            bodies: Vec::new(),
            walls: Vec::new(),
            springs: Vec::new(),
            gravity,
            arena,
            level: 0,
            state: GameState::Planning,
            placing_wall: None,
            max_walls: 0,
            won_at: None,
            held: Hold::Free,
        };
        assert(r@.bodies =~= Seq::empty());
        assert(r@.walls =~= Seq::empty());
        assert(r@.springs =~= Seq::empty());
        r
    }

    /// The bodies, in order.
    pub fn bodies(&self) -> (r: &Vec<Body>)
        ensures
            models(r@) == self@.bodies,
    {
        &self.bodies
    }

    /// The walls, in order.
    pub fn walls(&self) -> (r: &Vec<Wall>)
        ensures
            wall_models(r@) == self@.walls,
    {
        &self.walls
    }

    /// The springs, in order.
    pub fn springs(&self) -> (r: &Vec<Spring>)
        ensures
            spring_models(r@) == self@.springs,
    {
        &self.springs
    }

    /// The phase of the game.
    pub fn state(&self) -> (r: GameState)
        ensures
            r == self@.state,
    {
        self.state
    }

    /// The number of the current puzzle.
    pub fn level(&self) -> (r: u32)
        ensures
            r == self@.level,
    {
        self.level
    }

    /// How many walls the player may add.
    pub fn max_walls(&self) -> (r: usize)
        ensures
            r == self@.max_walls,
    {
        self.max_walls
    }

    /// Where the wall being drawn starts, if one is being drawn.
    pub fn placing_wall(&self) -> (r: Option<Vec2>)
        ensures
            point_model(r) == self@.placing_wall,
    {
        self.placing_wall
    }

    /// When the game was won, if it was.
    pub fn won_at(&self) -> (r: Option<u64>)
        ensures
            time_model(r) == self@.won_at,
    {
        self.won_at
    }

    /// The gravity.
    pub fn gravity(&self) -> (r: Vec2)
        ensures
            r@ == self@.gravity,
    {
        self.gravity
    }

    /// The arena.
    pub fn arena(&self) -> (r: Arena)
        ensures
            r@ == self@.arena,
    {
        self.arena
    }

    /// Replaces the gravity.
    pub fn set_gravity(&mut self, gravity: Vec2)
        ensures
            final(self)@ == (SimModel { gravity: gravity@, ..old(self)@ }),
            old(self).wf() ==> final(self).wf(),
    {
        self.gravity = gravity;
    }

    /// Replaces the arena.
    pub fn set_arena(&mut self, arena: Arena)
        ensures
            final(self)@ == (SimModel { arena: arena@, ..old(self)@ }),
            old(self).wf() ==> final(self).wf(),
    {
        self.arena = arena;
    }

    fn install(&mut self, scenario: Scenario)
        requires
            scenario@.valid(),
        ensures
            final(self)@ == old(self)@.loaded(scenario@),
            final(self).wf(),
    {
        self.bodies = scenario.bodies;
        self.walls = scenario.walls;
        self.springs = scenario.springs;
        self.max_walls = scenario.max_walls;
        self.state = GameState::Planning;
        self.placing_wall = None;
        self.won_at = None;
        self.held = Hold::Free;
    }

    /// Puts a scenario in place, ready for planning, if it is valid. An
    /// invalid scenario is refused, with the reason that
    /// [`Scenario::check`] gives, and the game stays as it was.
    pub fn load(&mut self, scenario: Scenario) -> (r: Result<(), ScenarioError>)
        ensures
            old(self).wf() ==> final(self).wf(),
            r is Ok <==> scenario@.valid(),
            r is Ok ==> final(self)@ == old(self)@.loaded(scenario@),
            r is Err ==> final(self)@ == old(self)@,
            r matches Err(ScenarioError::InvalidBody(i)) ==> i < scenario.bodies@.len()
                && !scenario@.bodies[i as int].valid() && forall|j: int|
                0 <= j < i ==> (#[trigger] scenario@.bodies[j]).valid(),
            r matches Err(ScenarioError::DegenerateWall(i)) ==> all_valid(scenario@.bodies) && i
                < scenario.walls@.len() && !scenario@.walls[i as int].valid() && forall|j: int|
                0 <= j < i ==> (#[trigger] scenario@.walls[j]).valid(),
    {
        match scenario.check() {
            Ok(()) => {
                self.install(scenario);
                Ok(())
            },
            Err(e) => Err(e),
        }
    }

    /// Sets up the puzzle with the given number, ready for planning. A
    /// number that names no puzzle leaves an empty scene. The level
    /// number of the game stays as it is: [`Simulation::start_level`]
    /// takes the number too.
    pub fn setup_level(&mut self, number: u32)
        ensures
            final(self)@ == old(self)@.set_up(number as int),
            final(self).wf(),
    {
        match level(number) {
            Some(scenario) => {
                self.install(scenario);
            },
            None => {
                let budget = self.max_walls;
                self.install(Scenario::empty(budget));
            },
        }
    }

    /// Goes to the level with the given number: takes the number, and
    /// sets up the puzzle of that number.
    pub fn start_level(&mut self, number: u32)
        ensures
            final(self)@ == old(self)@.started(number as int),
            final(self).wf(),
    {
        self.level = number;
        self.setup_level(number);
    }

    /// Number of walls the player has added.
    pub fn count_user_walls(&self) -> (n: usize)
        ensures
            n == self@.user_walls(),
    {
        let ghost all = wall_models(self.walls@);
        let mut n: usize = 0;
        let mut k: usize = 0;
        proof {
            reveal(Seq::filter);
            assert(all.take(0) =~= Seq::<WallModel>::empty());
        }
        while k < self.walls.len()
            invariant
                k <= self.walls@.len(),
                all == wall_models(self.walls@),
                n <= k,
                n == all.take(k as int).filter(placed_by_user()).len(),
            decreases self.walls@.len() - k,
        {
            proof {
                reveal(Seq::filter);
                assert(all.take(k + 1).drop_last() =~= all.take(k as int));
                assert(all.take(k + 1).last() == self.walls@[k as int]@);
            }
            if self.walls[k].is_user_placed {
                n = n + 1;
            }
            k = k + 1;
        }
        assert(all.take(k as int) =~= all);
        n
    }

    /// Puts the game back to planning: every body returns to its recorded
    /// initial position and velocity with no pending acceleration, and the
    /// win, if any, is forgotten. Walls and springs stay.
    pub fn reset_simulation(&mut self)
        ensures
            final(self)@ == old(self)@.reset(),
            old(self).wf() ==> final(self).wf(),
    {
        let mut i: usize = 0;
        while i < self.bodies.len()
            invariant
                i <= self.bodies@.len(),
                self.bodies@.len() == old(self).bodies@.len(),
                forall|j: int|
                    0 <= j < i ==> (#[trigger] self.bodies@[j])@ == old(
                        self,
                    ).bodies@[j]@.restored(),
                forall|j: int|
                    i <= j < self.bodies@.len() ==> #[trigger] self.bodies@[j] == old(
                        self,
                    ).bodies@[j],
                self.walls == old(self).walls,
                self.springs == old(self).springs,
                self.gravity == old(self).gravity,
                self.arena == old(self).arena,
                self.level == old(self).level,
                self.placing_wall == old(self).placing_wall,
                self.max_walls == old(self).max_walls,
                self.held == old(self).held,
            decreases self.bodies@.len() - i,
        {
            let restored = self.bodies[i].restored();
            self.bodies.set(i, restored);
            i = i + 1;
        }
        self.state = GameState::Planning;
        self.won_at = None;
        assert(self@.bodies =~= old(self)@.reset().bodies);
        assert(old(self).wf() ==> self.wf()) by {
            if old(self).wf() {
                assert forall|j: int| 0 <= j < self@.bodies.len() implies (
                #[trigger] self@.bodies[j]).valid() by {
                    assert(old(self)@.bodies[j].valid());
                }
            }
        }
    }

    /// Advances a running game by one frame of length `dt` at time `now`;
    /// a game that is not running is left as it is. See
    /// [`SimModel::stepped`].
    pub fn update_physics(&mut self, dt: Fixed, now: u64)
        requires
            old(self).wf(),
        ensures
            final(self)@ == old(self)@.stepped(dt@, now as int),
            final(self).wf(),
            all_moved_from(final(self)@.bodies, old(self)@.bodies),
    {
        proof {
            lemma_step_moves_bodies(self@, dt@, now as int);
        }
        match self.state {
            GameState::Running => {},
            _ => {
                return ;
            },
        }
        apply_springs(&mut self.bodies, &self.springs);
        integrate_all(&mut self.bodies, self.gravity, dt);
        resolve_boundaries(&mut self.bodies, &self.arena);
        let hit = resolve_collisions(&mut self.bodies);
        if hit {
            self.state = GameState::Won;
            self.won_at = Some(now);
        }
        resolve_walls(&mut self.bodies, &self.walls);
    }

    /// Starts a planned game running.
    pub fn launch(&mut self)
        ensures
            final(self)@ == old(self)@.launched(),
            old(self).wf() ==> final(self).wf(),
    {
        match self.state {
            GameState::Planning => {
                self.state = GameState::Running;
            },
            _ => {},
        }
    }

    /// Sets up the next puzzle once a win has been shown for more than
    /// [`WIN_DELAY`]. See [`SimModel::advanced`].
    pub fn advance(&mut self, now: u64)
        ensures
            final(self)@ == old(self)@.advanced(now as int),
            old(self).wf() ==> final(self).wf(),
    {
        match self.won_at {
            Some(t) => {
                if now > t && now - t > WIN_DELAY {
                    if self.level <= LEVEL_COUNT {
                        let next = self.level + 1;
                        self.start_level(next);
                    } else {
                        self.state = GameState::Won;
                    }
                }
            },
            None => {},
        }
    }

    /// Steps back one puzzle while planning.
    pub fn go_back(&mut self)
        ensures
            final(self)@ == old(self)@.gone_back(),
            old(self).wf() ==> final(self).wf(),
    {
        match self.state {
            GameState::Planning => {
                if self.level > 1 {
                    let previous = self.level - 1;
                    self.start_level(previous);
                }
            },
            _ => {},
        }
    }

    /// Steps forward one puzzle while planning.
    pub fn go_forward(&mut self)
        ensures
            final(self)@ == old(self)@.gone_forward(),
            old(self).wf() ==> final(self).wf(),
    {
        match self.state {
            GameState::Planning => {
                if self.level < LEVEL_COUNT {
                    let next = self.level + 1;
                    self.start_level(next);
                }
            },
            _ => {},
        }
    }

    /// Starts over from the first puzzle once the game is won past the
    /// last one.
    pub fn play_again(&mut self)
        ensures
            final(self)@ == old(self)@.played_again(),
            old(self).wf() ==> final(self).wf(),
    {
        match self.state {
            GameState::Won => {
                if self.level > LEVEL_COUNT {
                    self.start_level(1);
                }
            },
            _ => {},
        }
    }

    /// Sets the current puzzle up afresh.
    pub fn restart_level(&mut self)
        ensures
            final(self)@ == old(self)@.set_up(old(self)@.level),
            final(self).wf(),
    {
        let number = self.level;
        self.setup_level(number);
    }

    /// Removes the walls the player added; the walls of the puzzle stay,
    /// in their order.
    pub fn clear_user_walls(&mut self)
        ensures
            final(self)@ == old(self)@.user_walls_cleared(),
            old(self).wf() ==> final(self).wf(),
    {
        let ghost all = wall_models(self.walls@);
        let mut kept: Vec<Wall> = Vec::new();
        let mut k: usize = 0;
        proof {
            reveal(Seq::filter);
            assert(all.take(0) =~= Seq::<WallModel>::empty());
            assert(wall_models(kept@) =~= all.take(0).filter(part_of_puzzle()));
        }
        while k < self.walls.len()
            invariant
                k <= self.walls@.len(),
                all == wall_models(self.walls@),
                wall_models(kept@) == all.take(k as int).filter(part_of_puzzle()),
                walls_valid(all) ==> walls_valid(wall_models(kept@)),
            decreases self.walls@.len() - k,
        {
            let ghost before = wall_models(kept@);
            proof {
                reveal(Seq::filter);
                assert(all.take(k + 1).drop_last() =~= all.take(k as int));
                assert(all.take(k + 1).last() == self.walls@[k as int]@);
            }
            if !self.walls[k].is_user_placed {
                kept.push(self.walls[k]);
                assert(wall_models(kept@) =~= before.push(self.walls@[k as int]@));
                assert(walls_valid(all) ==> walls_valid(wall_models(kept@))) by {
                    if walls_valid(all) {
                        assert(all[k as int].valid());
                    }
                }
            }
            k = k + 1;
        }
        assert(all.take(k as int) =~= all);
        self.walls = kept;
    }

    /// Handles a press of the pointer at `pos`: starts a wall there if
    /// one may be started. See [`SimModel::may_start_wall`].
    pub fn press(&mut self, pos: Vec2)
        ensures
            final(self)@ == old(self)@.pressed(pos@),
            old(self).wf() ==> final(self).wf(),
    {
        let planning = match self.state {
            GameState::Planning => true,
            _ => false,
        };
        if planning && self.count_user_walls() < self.max_walls && pos.x.raw > self.arena.left.raw {
            self.placing_wall = Some(pos);
        }
    }

    /// Handles a release of the pointer at `pos`: ends the wall being
    /// drawn, which is added if it is longer than [`MIN_WALL_LENGTH`].
    /// Reports whether a wall was added.
    pub fn release(&mut self, pos: Vec2) -> (added: bool)
        ensures
            final(self)@ == old(self)@.released(pos@),
            added <==> final(self)@.walls.len() == old(self)@.walls.len() + 1,
            old(self).wf() ==> final(self).wf(),
    {
        let planning = match self.state {
            GameState::Planning => true,
            _ => false,
        };
        match self.placing_wall {
            Some(start) => {
                if planning {
                    let ghost before = wall_models(self.walls@);
                    let wall = Wall { start, end: pos, is_user_placed: true };
                    let long_enough = pos.sub(start).length().raw > MIN_WALL_LENGTH;
                    if long_enough {
                        self.walls.push(wall);
                        proof {
                            assert(wall_models(self.walls@) =~= before.push(wall@));
                            if walls_valid(before) {
                                lemma_pushed_wall_keeps_valid(before, wall@);
                            }
                        }
                    }
                    self.placing_wall = None;
                    long_enough
                } else {
                    false
                }
            },
            None => false,
        }
    }

    /// Adds a body behind the others if it is valid, and reports whether
    /// it did.
    pub fn add_body(&mut self, body: Body) -> (added: bool)
        ensures
            added == body@.valid(),
            final(self)@ == old(self)@.with_body(body@),
            old(self).wf() ==> final(self).wf(),
    {
        if body.is_valid() {
            let ghost before = models(self.bodies@);
            self.bodies.push(body);
            proof {
                assert(models(self.bodies@) =~= before.push(body@));
                if all_valid(before) {
                    lemma_pushed_body_keeps_valid(before, body@);
                }
            }
            true
        } else {
            false
        }
    }

    /// Adds a wall behind the others if it has length, and reports
    /// whether it did.
    pub fn add_wall(&mut self, wall: Wall) -> (added: bool)
        ensures
            added == wall@.valid(),
            final(self)@ == old(self)@.with_wall(wall@),
            old(self).wf() ==> final(self).wf(),
    {
        if wall.is_valid() {
            let ghost before = wall_models(self.walls@);
            self.walls.push(wall);
            proof {
                assert(wall_models(self.walls@) =~= before.push(wall@));
                if walls_valid(before) {
                    lemma_pushed_wall_keeps_valid(before, wall@);
                }
            }
            true
        } else {
            false
        }
    }

    /// Adds a spring behind the others.
    pub fn add_spring(&mut self, spring: Spring)
        ensures
            final(self)@ == old(self)@.with_spring(spring@),
            old(self).wf() ==> final(self).wf(),
    {
        let ghost before = spring_models(self.springs@);
        self.springs.push(spring);
        assert(spring_models(self.springs@) =~= before.push(spring@));
    }

    /// Drags body `index` toward `target` for one frame, and reports
    /// whether the body was movable. See [`SimModel::dragged`].
    pub fn drag(&mut self, index: usize, target: Vec2) -> (moved: bool)
        ensures
            moved == old(self)@.movable(index as int),
            final(self)@ == old(self)@.dragged(index as int, target@),
            old(self).wf() ==> final(self).wf(),
    {
        match self.state {
            GameState::Running => {},
            _ => {
                return false;
            },
        }
        if index >= self.bodies.len() {
            return false;
        }
        let b = self.bodies[index];
        if b.fixed {
            return false;
        }
        let ghost before = models(self.bodies@);
        let pulled = Body {
            acc: b.acc.add(target.sub(b.pos).mul(Fixed::from_raw(DRAG_STRENGTH))),
            vel: b.vel.mul(Fixed::from_raw(DRAG_DAMPING)),
            ..b
        };
        self.bodies.set(index, pulled);
        proof {
            assert(models(self.bodies@) =~= before.update(index as int, pulled@));
            lemma_update_keeps_valid(before, index as int, pulled@);
        }
        true
    }

    /// Lets body `index` fly after a pull from `from` to `to`, and reports
    /// whether the body was movable. See [`SimModel::flung`].
    pub fn fling(&mut self, index: usize, from: Vec2, to: Vec2) -> (moved: bool)
        ensures
            moved == old(self)@.movable(index as int),
            final(self)@ == old(self)@.flung(index as int, from@, to@),
            old(self).wf() ==> final(self).wf(),
    {
        match self.state {
            GameState::Running => {},
            _ => {
                return false;
            },
        }
        if index >= self.bodies.len() {
            return false;
        }
        let b = self.bodies[index];
        if b.fixed {
            return false;
        }
        let ghost before = models(self.bodies@);
        let thrown = Body { vel: from.sub(to).mul(Fixed::from_raw(FLING_STRENGTH)), ..b };
        self.bodies.set(index, thrown);
        proof {
            assert(models(self.bodies@) =~= before.update(index as int, thrown@));
            lemma_update_keeps_valid(before, index as int, thrown@);
        }
        true
    }

    /// Index of the first body whose disk covers `pos`.
    pub fn get_object_at_pos(&self, pos: Vec2) -> (r: Option<usize>)
        ensures
            index_model(r) == body_at(self@.bodies, pos@),
            r matches Some(i) ==> is_first_at(self@.bodies, pos@, i as int),
            r is None ==> forall|j: int|
                0 <= j < self@.bodies.len() ==> !(#[trigger] self@.bodies[j]).covers(pos@),
    {
        let mut i: usize = 0;
        while i < self.bodies.len()
            invariant
                i <= self.bodies@.len(),
                forall|j: int| 0 <= j < i ==> !(#[trigger] self@.bodies[j]).covers(pos@),
            decreases self.bodies@.len() - i,
        {
            if self.bodies[i].covers(pos) {
                proof {
                    assert(is_first_at(self@.bodies, pos@, i as int));
                    lemma_first_at_is_unique(
                        self@.bodies,
                        pos@,
                        i as int,
                        choose|k: int| is_first_at(self@.bodies, pos@, k),
                    );
                }
                return Some(i);
            }
            i = i + 1;
        }
        None
    }

    /// Handles one event. See [`SimModel::handled`].
    pub fn handle(&mut self, event: Event)
        ensures
            final(self)@ == old(self)@.handled(event@),
            old(self).wf() ==> final(self).wf(),
    {
        match event {
            Event::Launch => self.launch(),
            Event::Reset => self.reset_simulation(),
            Event::GoBack => self.go_back(),
            Event::GoForward => self.go_forward(),
            Event::PlayAgain => self.play_again(),
            Event::RestartLevel => self.restart_level(),
            Event::FreePlay => self.start_level(0),
            Event::ClearUserWalls => self.clear_user_walls(),
            Event::Resize(arena) => self.set_arena(arena),
            Event::SetGravity(gravity) => self.set_gravity(gravity),
            Event::Add(body) => {
                self.add_body(body);
            },
            Event::Press(pos, pull) => {
                if !self.grab(pos, pull) {
                    self.press(pos);
                }
            },
            Event::Hover(pos) => self.hold_at(pos),
            Event::Release(pos) => {
                self.let_go(pos);
                self.release(pos);
            },
        }
    }

    /// Runs one frame at time `now`, `elapsed` microseconds after the one
    /// before: checks for progress after a win, handles the events in
    /// their order, and advances the physics. See [`SimModel::framed`].
    pub fn frame(&mut self, events: &Vec<Event>, elapsed: u64, now: u64)
        requires
            old(self).wf(),
        ensures
            final(self)@ == old(self)@.framed(event_models(events@), elapsed as int, now as int),
            final(self).wf(),
    {
        self.advance(now);
        let ghost start = self@;
        let ghost all = event_models(events@);
        let mut k: usize = 0;
        while k < events.len()
            invariant
                k <= events@.len(),
                all == event_models(events@),
                self.wf(),
                self@ == start.handled_all(all, k as int),
            decreases events@.len() - k,
        {
            assert(all[k as int] == events@[k as int]@);
            self.handle(events[k]);
            k = k + 1;
        }
        self.update_physics(step_length(elapsed), now);
    }

    /// What the pointer holds.
    pub fn held(&self) -> (r: Hold)
        ensures
            r@ == self@.held,
    {
        self.held
    }

    /// Whether the game is free play.
    pub fn is_free_play(&self) -> (r: bool)
        ensures
            r == self@.is_free_play(),
    {
        self.level == 0
    }

    /// Handles a press of the pointer at `pos` that is meant to grab a
    /// body, to pull it back if `pull` is set and else to drag it, and
    /// reports whether a body is held now. See [`SimModel::grabbed`].
    pub fn grab(&mut self, pos: Vec2, pull: bool) -> (holding: bool)
        ensures
            final(self)@ == old(self)@.grabbed(pos@, pull),
            holding <==> final(self)@.held != HoldModel::Free,
            old(self).wf() ==> final(self).wf(),
    {
        if self.level == 0 && self.placing_wall.is_none() {
            match self.get_object_at_pos(pos) {
                Some(i) => {
                    self.held = if pull {
                        Hold::Pulling(i, pos)
                    } else {
                        Hold::Dragging(i)
                    };
                },
                None => {},
            }
        }
        match self.held {
            Hold::Free => false,
            _ => true,
        }
    }

    /// Handles a frame in which the pointer stays down at `pos`: drags
    /// the body that is being dragged, if any. See [`SimModel::held_at`].
    pub fn hold_at(&mut self, pos: Vec2)
        ensures
            final(self)@ == old(self)@.held_at(pos@),
            old(self).wf() ==> final(self).wf(),
    {
        match self.held {
            Hold::Dragging(i) => {
                self.drag(i, pos);
            },
            _ => {},
        }
    }

    /// Handles a release of the pointer at `pos`: flings the body that
    /// was pulled back, if any, and holds nothing any more. See
    /// [`SimModel::let_go`].
    pub fn let_go(&mut self, pos: Vec2)
        ensures
            final(self)@ == old(self)@.let_go(pos@),
            old(self).wf() ==> final(self).wf(),
    {
        match self.held {
            Hold::Pulling(i, from) => {
                self.fling(i, from, pos);
            },
            _ => {},
        }
        self.held = Hold::Free;
    }
}

impl Default for Simulation {
    /// The game at the start of the first puzzle: an arena 800 wide and
    /// 600 high to the right of a margin of 210, gravity of 400 downward.
    fn default() -> (r: Simulation)
        ensures
            r.wf(),
            r@ == Simulation::initial(),
    {
        let arena = Arena {
            left: Fixed::from_int(210),
            top: Fixed::zero(),
            right: Fixed::from_int(1010),
            bottom: Fixed::from_int(600),
        };
        let mut r = Simulation::new(arena, Vec2::new(Fixed::zero(), Fixed::from_int(400)));
        r.max_walls = 3;
        r.start_level(1);
        r
    }
}

} // verus!
