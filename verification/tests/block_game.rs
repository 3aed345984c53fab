//! The block game's state machine: the landing / line-clear scenario, hard
//! drops, and the menu lifecycle.

use brick_games::imprint::Cell;
use brick_games::game::TickResult;
use brick_games::piece::Piece;
use brick_games::score_table::ScoreTable;
use brick_games::tetris::{Status, Tetris, MAX_BTYPE, MAX_LEVEL};

fn fresh() -> Tetris {
    Tetris::new(ScoreTable::zeroed(MAX_LEVEL as usize, (MAX_BTYPE + 1) as usize))
}

#[test]
fn landing_clears_one_line_and_scores_forty() {
    let mut g = fresh();
    g.status = Status::Active;
    g.current = Piece::O1;
    // the O footprint occupies columns x0+1..x0+2, rows y0+1..y0+2;
    // resting on the floor means y0 = 19
    g.position = (0, 19);
    // fill the bottom row except under the piece
    g.board.set(0, 21, Cell::Filled(()));
    for x in 3..10 {
        g.board.set(x, 21, Cell::Filled(()));
    }
    // make gravity fire on the very next frame
    g.gravity_tick = g.speed - 1;
    let level = MAX_LEVEL - g.speed;

    assert_eq!(g.tick(), TickResult::Continue);
    assert!(matches!(g.status, Status::Clearing(3)));
    assert_eq!(g.score(), 0);

    g.tick();
    assert!(matches!(g.status, Status::Clearing(2)));
    g.tick();
    assert!(matches!(g.status, Status::Clearing(1)));
    g.tick();
    assert!(matches!(g.status, Status::Clearing(0)));
    g.tick();
    assert!(matches!(g.status, Status::Active));
    assert_eq!(g.score(), 40 * (level + 1));

    // the piece's upper pair shifted down onto the vacated bottom row
    assert!(!g.board.get(1, 21).is_empty());
    assert!(!g.board.get(2, 21).is_empty());
    assert!(g.board.get(0, 21).is_empty());
    for x in 0..10 {
        assert!(g.board.get(x, 20).is_empty());
    }
}

#[test]
fn hard_drop_lands_and_awards_the_fall_bonus() {
    let mut g = fresh();
    g.status = Status::Active;
    g.current = Piece::O1;
    g.position = (3, 1);
    g.input.drop = true;
    g.tick();
    // the drop intent is consumed and the piece is locked into the grid
    assert!(!g.input.drop);
    assert!(matches!(g.status, Status::Placing(Piece::O1, 3, 19)));
    assert!(!g.board.get(4, 20).is_empty());
    assert!(!g.board.get(5, 21).is_empty());
    // one bonus point per forced step, 18 free steps plus the landing one
    assert_eq!(g.score(), 19);
}

#[test]
fn menu_drop_starts_a_run_and_escape_exits() {
    let mut g = fresh();
    assert!(matches!(g.status, Status::Menu(0)));
    g.input.drop = true;
    assert_eq!(g.tick(), TickResult::Continue);
    assert!(matches!(g.status, Status::Active));
    assert!(!g.input.drop);

    let mut g2 = fresh();
    g2.input.escape = true;
    assert_eq!(g2.tick(), TickResult::Exit);
    let mut g3 = fresh();
    g3.input.next = true;
    assert_eq!(g3.tick(), TickResult::NextGame);
    let mut g4 = fresh();
    g4.input.prev = true;
    assert_eq!(g4.tick(), TickResult::PrevGame);
}

#[test]
fn menu_up_and_down_adjust_the_level() {
    let mut g = fresh();
    g.input.up = true;
    g.tick();
    assert_eq!(g.config.level, 1);
    assert_eq!(g.speed, MAX_LEVEL - 1);
    assert_eq!(g.current_level(), 1);
    g.input.down = true;
    g.tick();
    assert_eq!(g.config.level, 0);
    assert_eq!(g.speed, MAX_LEVEL);
    // the level never goes below zero
    g.input.down = true;
    g.tick();
    assert_eq!(g.config.level, 0);
}

#[test]
fn menu_right_seeds_a_clutter_row() {
    let mut g = fresh();
    g.input.right = true;
    g.tick();
    assert_eq!(g.config.btype, 1);
    let mut filled = 0;
    for x in 0..10 {
        if !g.board.get(x, 21).is_empty() {
            filled += 1;
        }
    }
    assert!(filled >= 5);
    // and left clears it again
    g.input.left = true;
    g.tick();
    assert_eq!(g.config.btype, 0);
    for x in 0..10 {
        assert!(g.board.get(x, 21).is_empty());
    }
}

#[test]
fn pause_and_resume() {
    let mut g = fresh();
    g.status = Status::Active;
    g.input.escape = true;
    g.tick();
    assert!(matches!(g.status, Status::Paused));
    assert!(g.is_paused());
    assert!(!g.input.escape);
    g.input.down = true;
    g.tick();
    assert!(matches!(g.status, Status::Active));
}

#[test]
fn left_and_right_respect_walls() {
    let mut g = fresh();
    g.status = Status::Active;
    g.current = Piece::O1;
    g.position = (3, 5);
    g.left();
    assert_eq!(g.position, (2, 5));
    g.right();
    g.right();
    assert_eq!(g.position, (4, 5));
    // the footprint's left column is x0 + 1, so x0 = -1 still fits
    g.position = (-1, 5);
    g.left();
    assert_eq!(g.position, (-1, 5));
}

#[test]
fn rejected_rotation_keeps_the_variant() {
    let mut g = fresh();
    g.status = Status::Active;
    g.current = Piece::I1;
    g.position = (3, 5);
    g.rotate_r();
    assert_eq!(g.current, Piece::I2);
    // block the vertical I's column and try again
    let mut g2 = fresh();
    g2.status = Status::Active;
    g2.current = Piece::I1;
    g2.position = (3, 5);
    g2.board.set(5, 6, Cell::Filled(()));
    g2.rotate_r();
    assert_eq!(g2.current, Piece::I1);
}

#[test]
fn game_over_run_saves_the_best_score() {
    let mut g = fresh();
    g.status = Status::Raising(2);
    g.points = 777;
    g.tick();
    assert!(matches!(g.status, Status::Lowering(2)));
    assert_eq!(g.score(), 0);
    assert_eq!(g.top_score(), 777);
    let bytes = g.take_save_request().expect("an improved score requests a save");
    let reloaded = ScoreTable::from_bytes(MAX_LEVEL as usize, (MAX_BTYPE + 1) as usize, &bytes);
    assert_eq!(reloaded.get_top_score(0, 0), 777);
    assert!(g.take_save_request().is_none());
}
