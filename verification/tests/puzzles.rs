use physics_puzzle::body::{Anchor, Body};
use physics_puzzle::fixed::Fixed;
use physics_puzzle::levels::{level, level_1, level_2, level_3, level_4, LEVEL_COUNT};
use physics_puzzle::scenario::Scenario;
use physics_puzzle::sim::{GameState, Simulation, WIN_DELAY};
use physics_puzzle::vec2::Vec2;

fn v(x: i64, y: i64) -> Vec2 {
    Vec2::new(Fixed::from_int(x), Fixed::from_int(y))
}

fn roles_are_in_place(s: &Scenario) {
    let last = s.bodies.len() - 1;
    for (i, b) in s.bodies.iter().enumerate() {
        assert_eq!(b.is_player, i == 0);
        assert_eq!(b.is_goal, i == last);
        assert!(b.is_valid());
        assert_eq!(b.acc, v(0, 0));
        assert_eq!(b.initial_pos, b.pos);
        assert_eq!(b.initial_vel, b.vel);
        assert_eq!(b.restored(), *b);
    }
    for w in &s.walls {
        assert!(w.is_valid());
        assert!(!w.is_user_placed);
    }
}

fn win_quickly(sim: &mut Simulation, now: u64) {
    let goal = sim.bodies()[sim.bodies().len() - 1];
    let bullet = Body::new(goal.pos, v(0, 0), Fixed::one(), Fixed::one(), Fixed::one()).unwrap();
    assert!(sim.add_body(bullet));
    sim.launch();
    sim.update_physics(Fixed::zero(), now);
    assert_eq!(sim.state(), GameState::Won);
}

#[test]
fn first_puzzle() {
    let s = level_1();
    assert_eq!(s.check(), Ok(()));
    assert_eq!(s.max_walls, 2);
    assert_eq!(s.bodies.len(), 4);
    assert_eq!(s.walls.len(), 1);
    assert!(s.springs.is_empty());
    roles_are_in_place(&s);
    assert_eq!(s.bodies[0].pos, v(220, 150));
    assert_eq!(s.bodies[0].vel, v(420, 380));
    assert_eq!(s.bodies[0].radius, Fixed::from_int(18));
    assert_eq!(s.bodies[0].restitution, Fixed::from_ratio(94, 100));
    assert!(s.bodies[1].fixed);
    assert_eq!(s.bodies[1].mass, Fixed::from_int(15));
    assert_eq!(s.bodies[2].mass, Fixed::from_ratio(13, 10));
    assert_eq!(s.bodies[3].pos, v(800, 480));
    assert_eq!(s.bodies[3].initial_vel, v(0, 450));
    assert_eq!(s.walls[0].start, v(500, 350));
    assert_eq!(s.walls[0].end, v(700, 330));
}

#[test]
fn second_puzzle() {
    let s = level_2();
    assert_eq!(s.check(), Ok(()));
    assert_eq!(s.max_walls, 3);
    assert_eq!(s.bodies.len(), 6);
    assert_eq!(s.walls.len(), 3);
    assert!(s.springs.is_empty());
    roles_are_in_place(&s);
    assert!(s.bodies[1].fixed && s.bodies[2].fixed);
    assert!(!s.bodies[3].fixed && !s.bodies[4].fixed);
    assert_eq!(s.bodies[5].vel, v(0, 450));
    assert_eq!(s.bodies[5].initial_vel, v(0, 450));
    assert_eq!(s.bodies[5].restitution, Fixed::from_ratio(83, 100));
    assert_eq!(s.walls[2].end, v(760, 300));
}

#[test]
fn third_puzzle() {
    let s = level_3();
    assert_eq!(s.check(), Ok(()));
    assert_eq!(s.max_walls, 3);
    assert_eq!(s.bodies.len(), 5);
    assert_eq!(s.walls.len(), 3);
    assert_eq!(s.springs.len(), 2);
    roles_are_in_place(&s);
    assert_eq!(s.bodies[1].radius, Fixed::from_int(38));
    assert_eq!(s.bodies[1].mass, Fixed::from_ratio(22, 10));
    assert_eq!(s.bodies[1].vel, v(-130, 0));
    assert_eq!(s.bodies[2].radius, Fixed::from_int(41));
    assert_eq!(s.bodies[2].mass, Fixed::from_ratio(26, 10));
    assert_eq!(s.bodies[3].pos, v(700, 220));
    assert_eq!(s.bodies[3].initial_pos, v(700, 220));
    assert_eq!(s.springs[0].body, 1);
    assert_eq!(s.springs[0].anchor, Anchor::Point(v(450, 60)));
    assert_eq!(s.springs[0].rest_length, Fixed::from_int(300));
    assert_eq!(s.springs[0].stiffness, Fixed::from_int(230));
    assert_eq!(s.springs[1].body, 2);
    assert_eq!(s.springs[1].anchor, Anchor::Point(v(620, 60)));
    assert_eq!(s.springs[1].stiffness, Fixed::from_int(95));
}

#[test]
fn fourth_puzzle() {
    let s = level_4();
    assert_eq!(s.check(), Ok(()));
    assert_eq!(s.max_walls, 2);
    assert_eq!(s.bodies.len(), 7);
    assert_eq!(s.walls.len(), 3);
    assert_eq!(s.springs.len(), 1);
    roles_are_in_place(&s);
    assert!(s.bodies[1].fixed && s.bodies[2].fixed && s.bodies[3].fixed);
    assert_eq!(s.bodies[3].radius, Fixed::from_int(75));
    assert_eq!(s.bodies[4].pos, v(450, 150));
    assert_eq!(s.bodies[4].vel, v(100, 0));
    assert_eq!(s.bodies[4].initial_pos, v(450, 150));
    assert_eq!(s.bodies[4].initial_vel, v(100, 0));
    assert_eq!(s.springs[0].body, 4);
    assert_eq!(s.springs[0].anchor, Anchor::Point(v(450, 50)));
    assert_eq!(s.walls[1].start, v(730, 570));
    assert_eq!(s.walls[1].end, v(730, 300));
}

#[test]
fn puzzles_by_number() {
    assert_eq!(LEVEL_COUNT, 4);
    assert!(level(0).is_none());
    assert_eq!(level(1).unwrap().bodies, level_1().bodies);
    assert_eq!(level(2).unwrap().bodies, level_2().bodies);
    assert_eq!(level(3).unwrap().bodies, level_3().bodies);
    assert_eq!(level(4).unwrap().bodies, level_4().bodies);
    assert!(level(5).is_none());
    assert!(level(u32::MAX).is_none());
}

#[test]
fn reset_right_after_set_up_changes_nothing() {
    let mut number = 0;
    while number <= LEVEL_COUNT + 1 {
        let mut sim = Simulation::default();
        sim.start_level(number);
        let set_up: Vec<Body> = sim.bodies().clone();
        sim.reset_simulation();
        assert_eq!(sim.bodies(), &set_up);
        assert_eq!(sim.state(), GameState::Planning);
        number += 1;
    }
}

#[test]
fn setting_up_a_puzzle_leaves_the_level_number() {
    let mut sim = Simulation::default();
    sim.launch();
    sim.setup_level(3);
    assert_eq!(sim.level(), 1);
    assert_eq!(sim.state(), GameState::Planning);
    assert_eq!(sim.bodies(), &level_3().bodies);
    assert_eq!(sim.max_walls(), 3);
    // a restart sets up the puzzle of the level number
    sim.restart_level();
    assert_eq!(sim.level(), 1);
    assert_eq!(sim.bodies(), &level_1().bodies);
}

#[test]
fn starting_a_level() {
    let mut sim = Simulation::default();
    sim.launch();
    sim.start_level(3);
    assert_eq!(sim.level(), 3);
    assert_eq!(sim.state(), GameState::Planning);
    assert_eq!(sim.bodies(), &level_3().bodies);
    assert_eq!(sim.walls(), &level_3().walls);
    assert_eq!(sim.springs(), &level_3().springs);
    assert_eq!(sim.max_walls(), 3);
    assert_eq!(sim.gravity(), v(0, 400));
}

#[test]
fn number_without_puzzle_leaves_an_empty_scene() {
    let mut sim = Simulation::default();
    sim.start_level(3);
    sim.start_level(5);
    assert_eq!(sim.level(), 5);
    assert!(sim.bodies().is_empty() && sim.walls().is_empty() && sim.springs().is_empty());
    assert_eq!(sim.max_walls(), 3);
    assert_eq!(sim.state(), GameState::Planning);
    sim.setup_level(u32::MAX);
    assert_eq!(sim.level(), 5);
    assert!(sim.bodies().is_empty());
}

#[test]
fn stepping_between_puzzles_while_planning() {
    let mut sim = Simulation::default();
    sim.go_back();
    assert_eq!(sim.level(), 1);
    sim.go_forward();
    assert_eq!(sim.level(), 2);
    assert_eq!(sim.bodies().len(), 6);
    sim.go_forward();
    sim.go_forward();
    assert_eq!(sim.level(), 4);
    sim.go_forward();
    assert_eq!(sim.level(), 4);
    sim.go_back();
    assert_eq!(sim.level(), 3);
    sim.launch();
    sim.go_back();
    sim.go_forward();
    assert_eq!(sim.level(), 3);
    assert_eq!(sim.state(), GameState::Running);
}

#[test]
fn restart_sets_the_puzzle_up_afresh() {
    let mut sim = Simulation::default();
    sim.press(v(300, 100));
    assert!(sim.release(v(300, 200)));
    sim.launch();
    sim.update_physics(Fixed::from_ratio(16, 1_000), 0);
    sim.restart_level();
    assert_eq!(sim.level(), 1);
    assert_eq!(sim.state(), GameState::Planning);
    assert_eq!(sim.bodies(), &level_1().bodies);
    assert_eq!(sim.walls().len(), 1);
}

#[test]
fn next_puzzle_comes_after_the_delay() {
    let mut sim = Simulation::default();
    win_quickly(&mut sim, 1_000);
    sim.advance(1_000);
    assert_eq!(sim.level(), 1);
    sim.advance(1_000 + WIN_DELAY);
    assert_eq!(sim.level(), 1);
    assert_eq!(sim.state(), GameState::Won);
    sim.advance(500);
    assert_eq!(sim.level(), 1);
    sim.advance(1_001 + WIN_DELAY);
    assert_eq!(sim.level(), 2);
    assert_eq!(sim.state(), GameState::Planning);
    assert_eq!(sim.won_at(), None);
    assert_eq!(sim.bodies(), &level_2().bodies);
}

#[test]
fn no_win_no_progress() {
    let mut sim = Simulation::default();
    sim.launch();
    sim.advance(u64::MAX);
    assert_eq!(sim.level(), 1);
    assert_eq!(sim.state(), GameState::Running);
}

#[test]
fn game_ends_behind_the_last_puzzle() {
    let mut sim = Simulation::default();
    sim.start_level(4);
    win_quickly(&mut sim, 0);
    sim.advance(WIN_DELAY + 1);
    assert_eq!(sim.level(), 5);
    assert!(sim.bodies().is_empty());
    assert_eq!(sim.state(), GameState::Planning);
    // nothing is left to win with
    sim.play_again();
    assert_eq!(sim.level(), 5);
}

#[test]
fn play_again_after_winning_behind_the_last_puzzle() {
    let mut sim = Simulation::default();
    sim.start_level(5);
    let goal = Body::new(v(500, 300), v(0, 0), Fixed::from_int(30), Fixed::one(), Fixed::one()).unwrap().goal();
    assert!(sim.add_body(goal));
    win_quickly(&mut sim, 10);
    sim.advance(10 + WIN_DELAY + 1);
    // behind the last puzzle the game stays won
    assert_eq!(sim.level(), 5);
    assert_eq!(sim.state(), GameState::Won);
    assert_eq!(sim.bodies().len(), 2);
    sim.play_again();
    assert_eq!(sim.level(), 1);
    assert_eq!(sim.state(), GameState::Planning);
    assert_eq!(sim.bodies(), &level_1().bodies);
}

#[test]
fn play_again_is_for_the_end_only() {
    let mut sim = Simulation::default();
    sim.start_level(2);
    win_quickly(&mut sim, 0);
    sim.play_again();
    assert_eq!(sim.level(), 2);
    assert_eq!(sim.state(), GameState::Won);
}

#[test]
fn built_in_puzzles_run() {
    let mut number = 1;
    while number <= LEVEL_COUNT {
        let mut sim = Simulation::default();
        sim.start_level(number);
        let start: Vec<Body> = sim.bodies().clone();
        sim.launch();
        let mut now = 0;
        while now < 300 {
            sim.update_physics(Fixed::from_ratio(16, 1_000), now);
            now += 1;
        }
        for (before, after) in start.iter().zip(sim.bodies().iter()) {
            assert_eq!(before.radius, after.radius);
            assert_eq!(before.mass, after.mass);
            assert_eq!(before.initial_pos, after.initial_pos);
            if before.fixed {
                assert_eq!(before, after);
            }
        }
        assert!(sim.bodies()[0].pos != start[0].pos);
        number += 1;
    }
}
