//! The grid primitive: collision checks, stamping, line scans and
//! compaction.

use brick_games::imprint::{Cell, Imprint};

fn board_10x4() -> Imprint<()> {
    Imprint::empty(10, 4)
}

fn dot() -> Imprint<()> {
    let mut s: Imprint<()> = Imprint::empty(1, 1);
    s.set(0, 0, Cell::Filled(()));
    s
}

#[test]
fn accepts_inside_empty_board() {
    let b = board_10x4();
    let s = dot();
    assert!(b.accepts(&s, (0, 0)));
    assert!(b.accepts(&s, (9, 3)));
}

#[test]
fn accepts_rejects_out_of_bounds() {
    let b = board_10x4();
    let s = dot();
    assert!(!b.accepts(&s, (-1, 0)));
    assert!(!b.accepts(&s, (0, -1)));
    assert!(!b.accepts(&s, (10, 0)));
    assert!(!b.accepts(&s, (0, 4)));
}

#[test]
fn accepts_rejects_occupied_cell() {
    let mut b = board_10x4();
    b.set(3, 2, Cell::Filled(()));
    let s = dot();
    assert!(!b.accepts(&s, (3, 2)));
    assert!(b.accepts(&s, (4, 2)));
}

#[test]
fn stamp_writes_filled_cells_and_clips() {
    let mut b = board_10x4();
    let s = dot();
    b.stamp(&s, (2, 1));
    assert!(!b.get(2, 1).is_empty());
    // a stamp outside the board is clipped, not an error
    b.stamp(&s, (-5, -5));
    b.stamp(&s, (50, 50));
    let mut filled = 0;
    for y in 0..4 {
        for x in 0..10 {
            if !b.get(x, y).is_empty() {
                filled += 1;
            }
        }
    }
    assert_eq!(filled, 1);
}

#[test]
fn full_lines_reports_ascending_indices() {
    let mut b = board_10x4();
    for x in 0..10 {
        b.set(x, 1, Cell::Filled(()));
        b.set(x, 3, Cell::Filled(()));
    }
    let mut out: Vec<usize> = Vec::new();
    assert!(b.full_lines(&mut out));
    assert_eq!(out, vec![1, 3]);
}

#[test]
fn full_lines_false_when_none_full() {
    let mut b = board_10x4();
    b.set(0, 0, Cell::Filled(()));
    let mut out: Vec<usize> = Vec::new();
    assert!(!b.full_lines(&mut out));
    assert!(out.is_empty());
}

#[test]
fn clear_lines_shifts_rows_down() {
    // rows: 0 empty, 1 full, 2 marked at x=0, 3 full
    let mut b = board_10x4();
    for x in 0..10 {
        b.set(x, 1, Cell::Filled(()));
        b.set(x, 3, Cell::Filled(()));
    }
    b.set(0, 2, Cell::Filled(()));
    let mut lines = vec![1, 3];
    b.clear_lines(&mut lines);
    assert!(lines.is_empty());
    // rows 0 and 1 are vacated, row 2 (old row 0) is empty, and the old
    // row 2 marker moved down by the one cleared row below it
    for x in 0..10 {
        assert!(b.get(x, 0).is_empty());
        assert!(b.get(x, 1).is_empty());
        assert!(b.get(x, 2).is_empty());
    }
    assert!(!b.get(0, 3).is_empty());
    for x in 1..10 {
        assert!(b.get(x, 3).is_empty());
    }
}

fn filled_cells(b: &Imprint<()>) -> usize {
    let (w, h) = b.size();
    let mut n = 0;
    for y in 0..h {
        for x in 0..w {
            if !b.get(x, y).is_empty() {
                n += 1;
            }
        }
    }
    n
}

#[test]
fn clear_lines_preserves_the_filled_census() {
    // two full rows and three scattered cells elsewhere
    let mut b = board_10x4();
    for x in 0..10 {
        b.set(x, 1, Cell::Filled(()));
        b.set(x, 3, Cell::Filled(()));
    }
    b.set(0, 0, Cell::Filled(()));
    b.set(4, 2, Cell::Filled(()));
    b.set(9, 2, Cell::Filled(()));
    let before = filled_cells(&b);
    assert_eq!(before, 23);
    let mut lines = vec![1, 3];
    b.clear_lines(&mut lines);
    // exactly the two cleared rows' cells are gone
    assert_eq!(filled_cells(&b), before - 2 * 10);
}

#[test]
fn clear_line_blanks_one_row_in_place() {
    let mut b = board_10x4();
    for x in 0..10 {
        b.set(x, 0, Cell::Filled(()));
        b.set(x, 1, Cell::Filled(()));
    }
    b.clear_line(0);
    for x in 0..10 {
        assert!(b.get(x, 0).is_empty());
        assert!(!b.get(x, 1).is_empty());
    }
}

#[test]
fn random_line_partially_fills_one_row() {
    let mut b = board_10x4();
    b.random_line(2, Cell::Filled(()));
    let mut empty = 0;
    let mut filled = 0;
    for x in 0..10 {
        if b.get(x, 2).is_empty() {
            empty += 1;
        } else {
            filled += 1;
        }
    }
    // up to width/2 knockouts, at least one of them distinct
    assert!(empty >= 1 && empty <= 5);
    assert!(filled >= 5);
    for y in [0usize, 1, 3] {
        for x in 0..10 {
            assert!(b.get(x, y).is_empty());
        }
    }
}

#[test]
fn all_clear_sees_top_rows_only() {
    let mut b = board_10x4();
    assert!(b.all_clear(4));
    b.set(5, 3, Cell::Filled(()));
    assert!(b.all_clear(3));
    assert!(!b.all_clear(4));
}

#[test]
fn from_footprint_maps_positive_entries() {
    let print = vec![vec![0u8, 1], vec![2u8, 0]];
    let b: Imprint<()> = Imprint::from_footprint(&print, Cell::Filled(()));
    assert_eq!(b.size(), (2, 2));
    assert!(b.get(0, 0).is_empty());
    assert!(!b.get(1, 0).is_empty());
    assert!(!b.get(0, 1).is_empty());
    assert!(b.get(1, 1).is_empty());
}
