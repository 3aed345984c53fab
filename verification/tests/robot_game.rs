//! The robot game's state machine: the wreckage scenario, player movement
//! and teleports.

use brick_games::game::TickResult;
use brick_games::imprint::{Cell, Imprint};
use brick_games::robots::{CellData, Config, Robots, Status, MAX_LEVEL, MAX_ROBOTS};
use brick_games::score_table::ScoreTable;

fn fresh() -> Robots {
    Robots::new(ScoreTable::zeroed(MAX_LEVEL as usize, (MAX_ROBOTS + 1) as usize))
}

fn scrap_cells(g: &Robots) -> usize {
    let mut n = 0;
    for y in 0..20 {
        for x in 0..10 {
            if let Cell::Filled(CellData::ScrapHeap) = g.board.get(x, y) {
                n += 1;
            }
        }
    }
    n
}

#[test]
fn two_robots_meeting_leave_one_wreckage_cell() {
    let mut g = fresh();
    g.status = Status::Active;
    g.config = Config { robots: 1, level: 0 };
    g.position = (5, 10);
    g.board = Imprint::empty(10, 20);
    // both robots will step into (5, 9) on the same advance
    g.robots = vec![(4, 8), (6, 8)];
    g.board.set(4, 8, Cell::Filled(CellData::Robot));
    g.board.set(6, 8, Cell::Filled(CellData::Robot));
    g.movement_tick = 0;
    let level = g.current_level();

    g.tick();
    // exactly one wreckage cell, at the meeting point
    assert_eq!(scrap_cells(&g), 1);
    assert!(matches!(g.board.get(5, 9), Cell::Filled(CellData::ScrapHeap)));
    // both colliding robots left the pack; one respawned on the border
    assert_eq!(g.robots.len(), 1);
    // the single new wreckage cell scores once, scaled by the level
    assert_eq!(g.score(), 1 * (level + 1));
    assert!(matches!(g.status, Status::Active));
}

#[test]
fn a_robot_on_wreckage_is_absorbed_without_score() {
    let mut g = fresh();
    g.status = Status::Active;
    g.config = Config { robots: 2, level: 0 };
    g.position = (5, 10);
    g.board = Imprint::empty(10, 20);
    g.robots = vec![(4, 8)];
    g.board.set(4, 8, Cell::Filled(CellData::Robot));
    // prior wreckage waits where the robot is headed
    g.board.set(5, 9, Cell::Filled(CellData::ScrapHeap));
    g.movement_tick = 0;

    g.tick();
    // no new wreckage cell was created, so nothing scores
    assert_eq!(g.score(), 0);
    assert_eq!(scrap_cells(&g), 1);
}

#[test]
fn the_pack_closes_in_on_the_player() {
    let mut g = fresh();
    g.status = Status::Active;
    g.config = Config { robots: 1, level: 0 };
    g.position = (5, 10);
    g.board = Imprint::empty(10, 20);
    g.robots = vec![(0, 0)];
    g.board.set(0, 0, Cell::Filled(CellData::Robot));
    g.movement_tick = 0;
    g.tick();
    assert_eq!(g.robots[0], (1, 1));
    assert!(matches!(g.board.get(1, 1), Cell::Filled(CellData::Robot)));
    assert!(g.board.get(0, 0).is_empty());
}

#[test]
fn stepping_into_a_robot_is_fatal() {
    let mut g = fresh();
    g.status = Status::Active;
    g.config = Config { robots: 1, level: 0 };
    g.position = (5, 10);
    g.board = Imprint::empty(10, 20);
    g.robots = vec![(4, 10)];
    g.board.set(4, 10, Cell::Filled(CellData::Robot));
    g.movement_tick = 7;  // no ambient advance this frame
    g.input.left = true;
    g.tick();
    assert!(matches!(g.status, Status::Raising(0)));
}

#[test]
fn directional_steps_clamp_at_the_edges() {
    let mut g = fresh();
    g.status = Status::Active;
    g.board = Imprint::empty(10, 20);
    g.robots = Vec::new();
    g.config = Config { robots: 1, level: 0 };
    g.position = (0, 0);
    g.movement_tick = 7;
    g.input.left = true;
    g.input.up = true;
    g.tick();
    assert_eq!(g.position, (0, 0));
    g.movement_tick = 7;
    g.input.right = true;
    g.input.down = true;
    g.tick();
    assert_eq!(g.position, (1, 1));
}

#[test]
fn a_teleport_spends_a_charge_and_detonates() {
    let mut g = fresh();
    g.status = Status::Active;
    g.config = Config { robots: 1, level: 0 };
    g.position = (5, 10);
    g.board = Imprint::empty(10, 20);
    g.robots = vec![(0, 19)];
    g.board.set(0, 19, Cell::Filled(CellData::Robot));
    g.movement_tick = 7;
    g.input.button_a = true;
    let charges = g.teleports;
    g.tick();
    assert_eq!(g.teleports, charges - 1);
    assert!(matches!(g.status, Status::Teleporting(_, _)));
    // the animation runs its course, then the jump resolves into play
    let mut guard = 0;
    while matches!(g.status, Status::Teleporting(_, _)) && guard < 20 {
        g.tick();
        guard += 1;
    }
    assert!(matches!(g.status, Status::Active | Status::Raising(0)));
}

#[test]
fn menu_adjusts_the_pack_size_within_limits() {
    let mut g = fresh();
    assert!(matches!(g.status, Status::Menu(0)));
    assert_eq!(g.config.robots, 5);
    g.input.right = true;
    g.tick();
    assert_eq!(g.config.robots, 6);
    assert_eq!(g.robots.len(), 6);
    g.input.left = true;
    g.tick();
    assert_eq!(g.config.robots, 5);
    g.input.next = true;
    assert_eq!(g.tick(), TickResult::NextGame);
}
