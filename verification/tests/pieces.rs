//! The piece catalog: rotation cycles and footprints.

use brick_games::piece::Piece;

const ALL: [Piece; 19] = [
    Piece::I1,
    Piece::I2,
    Piece::O1,
    Piece::J1,
    Piece::J2,
    Piece::J3,
    Piece::J4,
    Piece::L1,
    Piece::L2,
    Piece::L3,
    Piece::L4,
    Piece::S1,
    Piece::S2,
    Piece::T1,
    Piece::T2,
    Piece::T3,
    Piece::T4,
    Piece::Z1,
    Piece::Z2,
];

#[test]
fn four_right_rotations_restore_every_variant() {
    for p in ALL {
        assert_eq!(p.rotate_r().rotate_r().rotate_r().rotate_r(), p);
    }
}

#[test]
fn two_cycles_and_the_fixed_point() {
    for p in [Piece::I1, Piece::I2, Piece::S1, Piece::S2, Piece::Z1, Piece::Z2] {
        assert_eq!(p.rotate_r().rotate_r(), p);
        assert_ne!(p.rotate_r(), p);
    }
    assert_eq!(Piece::O1.rotate_r(), Piece::O1);
}

#[test]
fn left_rotation_is_three_right_rotations() {
    for p in ALL {
        assert_eq!(p.rotate_l(), p.rotate_r().rotate_r().rotate_r());
        // and a left then a right rotation cancel
        assert_eq!(p.rotate_l().rotate_r(), p);
    }
}

#[test]
fn j_family_runs_a_four_cycle() {
    assert_eq!(Piece::J1.rotate_r(), Piece::J2);
    assert_eq!(Piece::J2.rotate_r(), Piece::J3);
    assert_eq!(Piece::J3.rotate_r(), Piece::J4);
    assert_eq!(Piece::J4.rotate_r(), Piece::J1);
}

#[test]
fn footprints_have_four_cells_each() {
    for p in ALL {
        let fp = p.imprint();
        let (w, h) = fp.size();
        assert_eq!(w, h);
        assert!(w == 3 || w == 4);
        let mut filled = 0;
        for y in 0..h {
            for x in 0..w {
                if !fp.get(x, y).is_empty() {
                    filled += 1;
                }
            }
        }
        assert_eq!(filled, 4);
    }
}

#[test]
fn flat_i_footprint_is_the_third_row() {
    let fp = Piece::I1.imprint();
    for x in 0..4 {
        assert!(!fp.get(x, 2).is_empty());
        assert!(fp.get(x, 0).is_empty());
        assert!(fp.get(x, 1).is_empty());
        assert!(fp.get(x, 3).is_empty());
    }
}

#[test]
fn random_pick_covers_the_seven_families() {
    assert_eq!(Piece::from_random(0), Piece::I1);
    assert_eq!(Piece::from_random(1), Piece::O1);
    assert_eq!(Piece::from_random(2), Piece::J1);
    assert_eq!(Piece::from_random(3), Piece::L1);
    assert_eq!(Piece::from_random(4), Piece::S1);
    assert_eq!(Piece::from_random(5), Piece::T1);
    assert_eq!(Piece::from_random(6), Piece::Z1);
    assert_eq!(Piece::from_random(7), Piece::I1);
    assert_eq!(Piece::from_random(16), Piece::J1);
}
