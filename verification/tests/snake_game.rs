//! The snake game's state machine: self-collision, movement, eating and
//! steering.

use brick_games::fields::MAX_FIELDS;
use brick_games::game::TickResult;
use brick_games::imprint::Cell;
use brick_games::score_table::ScoreTable;
use brick_games::snake::{CellData, Direction, Snake, Status, MAX_LEVEL};

fn fresh() -> Snake {
    Snake::new(ScoreTable::zeroed(MAX_LEVEL as usize, MAX_FIELDS as usize))
}

#[test]
fn running_into_the_body_ends_the_run() {
    let mut g = fresh();
    g.status = Status::Active;
    g.head_position = (5, 10);
    g.direction = Direction::Right;
    // a body segment waits in the next cell, as in a closed loop that
    // turns back into itself
    g.board.set(6, 10, Cell::Filled(CellData::Snake(Direction::Right)));
    g.movement_tick = 0;
    g.tick();
    assert!(matches!(g.status, Status::Raising(0)));
}

#[test]
fn moving_into_free_space_keeps_playing_and_wraps() {
    let mut g = fresh();
    g.status = Status::Active;
    g.head_position = (9, 10);
    g.food_position = (0, 0);
    g.direction = Direction::Right;
    g.movement_tick = 0;
    g.tick();
    assert!(matches!(g.status, Status::Active));
    // wrap-around at the right edge
    assert_eq!(g.head_position, (0, 10));
    // the vacated cell keeps a segment until the tail catches up
    assert!(!g.board.get(9, 10).is_empty());
}

#[test]
fn eating_food_scores_and_grows() {
    let mut g = fresh();
    g.status = Status::Active;
    g.head_position = (5, 10);
    g.food_position = (6, 10);
    g.direction = Direction::Right;
    g.movement_tick = 0;
    g.growth = 0;
    let before = g.score();
    g.tick();
    assert_eq!(g.head_position, (6, 10));
    assert_eq!(g.score(), before + (MAX_LEVEL - g.speed + 1));
    // the food moved somewhere else and the snake kept its tail
    assert_ne!(g.food_position, (6, 10));
}

#[test]
fn reversal_is_rejected_but_turns_are_taken() {
    let mut g = fresh();
    g.status = Status::Active;
    g.head_position = (5, 10);
    g.direction = Direction::Right;
    // the head cell records the segment's travel direction
    g.board.set(5, 10, Cell::Filled(CellData::Snake(Direction::Right)));
    g.movement_tick = 5;  // no movement this frame
    g.input.left = true;
    g.tick();
    assert_eq!(g.direction, Direction::Right);
    g.input.left = false;
    g.input.up = true;
    g.tick();
    assert_eq!(g.direction, Direction::Up);
}

#[test]
fn relative_turn_buttons_steer() {
    let mut g = fresh();
    g.status = Status::Active;
    g.head_position = (5, 10);
    g.direction = Direction::Right;
    g.movement_tick = 5;
    g.input.button_a = true;  // turn left relative to the heading
    g.tick();
    assert_eq!(g.direction, Direction::Up);
    g.input.button_a = false;
    g.input.button_b = true;  // and back right
    g.tick();
    assert_eq!(g.direction, Direction::Right);
}

#[test]
fn menu_cycles_the_board_layouts() {
    let mut g = fresh();
    assert!(matches!(g.status, Status::Menu(0)));
    g.input.right = true;
    g.tick();
    assert_eq!(g.config.field, 1);
    // the selected layout's walls are on the board
    assert!(!g.board.get(2, 4).is_empty());
    g.input.left = true;
    g.tick();
    assert_eq!(g.config.field, 0);
    g.input.left = true;
    g.tick();
    assert_eq!(g.config.field, MAX_FIELDS - 1);
}

#[test]
fn menu_escape_exits() {
    let mut g = fresh();
    g.input.escape = true;
    assert_eq!(g.tick(), TickResult::Exit);
}

#[test]
fn bonus_window_toggles_on_schedule() {
    let mut g = fresh();
    g.status = Status::Active;
    g.head_position = (5, 10);
    g.food_position = (0, 0);
    g.direction = Direction::Right;
    g.bonus_timer = 1;
    g.bonus_position = None;
    g.movement_tick = 0;
    g.tick();
    // the quiet window ended: a bonus item appeared for its fixed stay
    assert!(g.bonus_position.is_some());
    assert!(g.bonus_timer == brick_games::snake::BONUS_TIME);
}
