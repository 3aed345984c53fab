//! The best-score table: updates, serialization and the load round trip.

use brick_games::score_table::ScoreTable;

#[test]
fn zeroed_table_reads_zero_everywhere() {
    let t = ScoreTable::zeroed(3, 4);
    for l in 0..3 {
        for v in 0..4 {
            assert_eq!(t.get_top_score(l, v), 0);
        }
    }
}

#[test]
fn update_keeps_the_maximum() {
    let mut t = ScoreTable::zeroed(3, 4);
    assert!(t.update_scores(1, 2, 500));
    assert_eq!(t.get_top_score(1, 2), 500);
    // a lower score never decreases the stored value
    assert!(!t.update_scores(1, 2, 123));
    assert_eq!(t.get_top_score(1, 2), 500);
    // equal is not an improvement
    assert!(!t.update_scores(1, 2, 500));
    assert_eq!(t.get_top_score(1, 2), 500);
    // a higher score replaces it
    assert!(t.update_scores(1, 2, 501));
    assert_eq!(t.get_top_score(1, 2), 501);
    // untouched entries stay zero
    assert_eq!(t.get_top_score(0, 0), 0);
    assert_eq!(t.get_top_score(2, 3), 0);
}

#[test]
fn bytes_are_little_endian_row_major() {
    let mut t = ScoreTable::zeroed(2, 2);
    t.update_scores(0, 0, 1);
    t.update_scores(0, 1, 0x01020304);
    t.update_scores(1, 0, 0xffff_ffff);
    let bytes = t.to_bytes();
    assert_eq!(bytes.len(), 16);
    assert_eq!(&bytes[0..4], &[1, 0, 0, 0]);
    assert_eq!(&bytes[4..8], &[4, 3, 2, 1]);
    assert_eq!(&bytes[8..12], &[255, 255, 255, 255]);
    assert_eq!(&bytes[12..16], &[0, 0, 0, 0]);
}

#[test]
fn three_records_round_trip_through_the_store() {
    let mut t = ScoreTable::zeroed(20, 15);
    t.update_scores(0, 0, 40);
    t.update_scores(7, 14, 123456);
    t.update_scores(19, 3, 7);
    let bytes = t.to_bytes();
    let t2 = ScoreTable::from_bytes(20, 15, &bytes);
    for l in 0..20 {
        for v in 0..15 {
            assert_eq!(t2.get_top_score(l, v), t.get_top_score(l, v));
        }
    }
}

#[test]
fn short_record_degrades_to_no_history() {
    let bytes: Vec<u8> = vec![9; 11];
    let t = ScoreTable::from_bytes(2, 2, &bytes);
    for l in 0..2 {
        for v in 0..2 {
            assert_eq!(t.get_top_score(l, v), 0);
        }
    }
    let empty: Vec<u8> = Vec::new();
    let t2 = ScoreTable::from_bytes(2, 2, &empty);
    assert_eq!(t2.get_top_score(1, 1), 0);
}

#[test]
fn oversized_record_ignores_the_tail() {
    let mut bytes = vec![0u8; 16];
    bytes[0] = 42;
    bytes.push(200);
    bytes.push(201);
    let t = ScoreTable::from_bytes(2, 2, &bytes);
    assert_eq!(t.get_top_score(0, 0), 42);
    assert_eq!(t.get_top_score(1, 1), 0);
}
