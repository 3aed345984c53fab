//! The block game's piece catalog: 19 orientation variants over 7 shape
//! families, each with a fixed footprint, and the rotation successor table.

use crate::imprint::{Cell, Imprint};
use vstd::prelude::*;

verus! {

/// One orientation variant. The digit suffix counts orientations within a
/// family: S/Z/I pair up in 2-cycles, O is a fixed point, and J/L/T run
/// through 4-cycles under a right rotation.
#[derive(Debug, Copy, Clone, PartialEq, Eq, Structural)]
pub enum Piece {
    I1,
    I2,
    O1,
    J1,
    J2,
    J3,
    J4,
    L1,
    L2,
    L3,
    L4,
    S1,
    S2,
    T1,
    T2,
    T3,
    T4,
    Z1,
    Z2,
}

/// The variant one right rotation away.
pub open spec fn spec_rotate_r(p: Piece) -> Piece {
    match p {
        Piece::I1 => Piece::I2,
        Piece::I2 => Piece::I1,
        Piece::S1 => Piece::S2,
        Piece::S2 => Piece::S1,
        Piece::Z1 => Piece::Z2,
        Piece::Z2 => Piece::Z1,
        Piece::O1 => Piece::O1,
        Piece::J1 => Piece::J2,
        Piece::J2 => Piece::J3,
        Piece::J3 => Piece::J4,
        Piece::J4 => Piece::J1,
        Piece::L1 => Piece::L2,
        Piece::L2 => Piece::L3,
        Piece::L3 => Piece::L4,
        Piece::L4 => Piece::L1,
        Piece::T1 => Piece::T2,
        Piece::T2 => Piece::T3,
        Piece::T3 => Piece::T4,
        Piece::T4 => Piece::T1,
    }
}

/// The side length of a variant's square footprint grid.
pub open spec fn footprint_size(p: Piece) -> int {
    match p {
        Piece::I1 | Piece::I2 | Piece::O1 => 4,
        _ => 3,
    }
}

/// Which relative cells of a variant's footprint are filled.
pub open spec fn footprint_at(p: Piece, x: int, y: int) -> bool {
    match p {
        Piece::I1 => y == 2 && 0 <= x < 4,
        Piece::I2 => x == 2 && 0 <= y < 4,
        Piece::O1 => (1 <= x <= 2) && (1 <= y <= 2),
        Piece::S1 => (x == 1 && y == 1) || (x == 2 && y == 1) || (x == 0 && y == 2) || (x == 1 && y
            == 2),
        Piece::S2 => (x == 1 && y == 0) || (x == 1 && y == 1) || (x == 2 && y == 1) || (x == 2 && y
            == 2),
        Piece::Z1 => (x == 0 && y == 1) || (x == 1 && y == 1) || (x == 1 && y == 2) || (x == 2 && y
            == 2),
        Piece::Z2 => (x == 2 && y == 0) || (x == 1 && y == 1) || (x == 2 && y == 1) || (x == 1 && y
            == 2),
        Piece::J1 => (x == 0 && y == 1) || (x == 1 && y == 1) || (x == 2 && y == 1) || (x == 2 && y
            == 2),
        Piece::J2 => (x == 1 && y == 0) || (x == 1 && y == 1) || (x == 0 && y == 2) || (x == 1 && y
            == 2),
        Piece::J3 => (x == 0 && y == 0) || (x == 0 && y == 1) || (x == 1 && y == 1) || (x == 2 && y
            == 1),
        Piece::J4 => (x == 1 && y == 0) || (x == 2 && y == 0) || (x == 1 && y == 1) || (x == 1 && y
            == 2),
        Piece::L1 => (x == 0 && y == 1) || (x == 1 && y == 1) || (x == 2 && y == 1) || (x == 0 && y
            == 2),
        Piece::L2 => (x == 0 && y == 0) || (x == 1 && y == 0) || (x == 1 && y == 1) || (x == 1 && y
            == 2),
        Piece::L3 => (x == 2 && y == 0) || (x == 0 && y == 1) || (x == 1 && y == 1) || (x == 2 && y
            == 1),
        Piece::L4 => (x == 1 && y == 0) || (x == 1 && y == 1) || (x == 1 && y == 2) || (x == 2 && y
            == 2),
        Piece::T1 => (x == 0 && y == 1) || (x == 1 && y == 1) || (x == 2 && y == 1) || (x == 1 && y
            == 2),
        Piece::T2 => (x == 1 && y == 0) || (x == 0 && y == 1) || (x == 1 && y == 1) || (x == 1 && y
            == 2),
        Piece::T3 => (x == 1 && y == 0) || (x == 0 && y == 1) || (x == 1 && y == 1) || (x == 2 && y
            == 1),
        Piece::T4 => (x == 1 && y == 0) || (x == 1 && y == 1) || (x == 2 && y == 1) || (x == 1 && y
            == 2),
    }
}

/// The footprint grid of `r` matches `p`'s footprint table.
pub open spec fn is_footprint_of(r: Imprint<()>, p: Piece) -> bool {
    &&& r.wf()
    &&& r.spec_width() == footprint_size(p)
    &&& r.spec_height() == footprint_size(p)
    &&& forall|x: int, y: int|
        0 <= x < footprint_size(p) && 0 <= y < footprint_size(p) ==> #[trigger] r.at(x, y) == (
        if footprint_at(p, x, y) {
            Cell::Filled(())
        } else {
            Cell::<()>::Empty
        })
}

impl Piece {
    /// The fixed footprint for this variant, as a boolean-ish grid.
    pub fn imprint(&self) -> (r: Imprint<()>)
        ensures
            is_footprint_of(r, *self),
    {
        match *self {
            Piece::I1 => {
                let mut it = Imprint::empty(4, 4);
                it.set(0, 2, Cell::Filled(()));
                it.set(1, 2, Cell::Filled(()));
                it.set(2, 2, Cell::Filled(()));
                it.set(3, 2, Cell::Filled(()));
                it
            },
            Piece::I2 => {
                let mut it = Imprint::empty(4, 4);
                it.set(2, 0, Cell::Filled(()));
                it.set(2, 1, Cell::Filled(()));
                it.set(2, 2, Cell::Filled(()));
                it.set(2, 3, Cell::Filled(()));
                it
            },
            Piece::O1 => {
                let mut it = Imprint::empty(4, 4);
                it.set(1, 1, Cell::Filled(()));
                it.set(2, 1, Cell::Filled(()));
                it.set(1, 2, Cell::Filled(()));
                it.set(2, 2, Cell::Filled(()));
                it
            },
            Piece::S1 => {
                let mut it = Imprint::empty(3, 3);
                it.set(1, 1, Cell::Filled(()));
                it.set(2, 1, Cell::Filled(()));
                it.set(0, 2, Cell::Filled(()));
                it.set(1, 2, Cell::Filled(()));
                it
            },
            Piece::S2 => {
                let mut it = Imprint::empty(3, 3);
                it.set(1, 0, Cell::Filled(()));
                it.set(1, 1, Cell::Filled(()));
                it.set(2, 1, Cell::Filled(()));
                it.set(2, 2, Cell::Filled(()));
                it
            },
            Piece::Z1 => {
                let mut it = Imprint::empty(3, 3);
                it.set(0, 1, Cell::Filled(()));
                it.set(1, 1, Cell::Filled(()));
                it.set(1, 2, Cell::Filled(()));
                it.set(2, 2, Cell::Filled(()));
                it
            },
            Piece::Z2 => {
                let mut it = Imprint::empty(3, 3);
                it.set(2, 0, Cell::Filled(()));
                it.set(1, 1, Cell::Filled(()));
                it.set(2, 1, Cell::Filled(()));
                it.set(1, 2, Cell::Filled(()));
                it
            },
            Piece::J1 => {
                let mut it = Imprint::empty(3, 3);
                it.set(0, 1, Cell::Filled(()));
                it.set(1, 1, Cell::Filled(()));
                it.set(2, 1, Cell::Filled(()));
                it.set(2, 2, Cell::Filled(()));
                it
            },
            Piece::J2 => {
                let mut it = Imprint::empty(3, 3);
                it.set(1, 0, Cell::Filled(()));
                it.set(1, 1, Cell::Filled(()));
                it.set(0, 2, Cell::Filled(()));
                it.set(1, 2, Cell::Filled(()));
                it
            },
            Piece::J3 => {
                let mut it = Imprint::empty(3, 3);
                it.set(0, 0, Cell::Filled(()));
                it.set(0, 1, Cell::Filled(()));
                it.set(1, 1, Cell::Filled(()));
                it.set(2, 1, Cell::Filled(()));
                it
            },
            Piece::J4 => {
                let mut it = Imprint::empty(3, 3);
                it.set(1, 0, Cell::Filled(()));
                it.set(2, 0, Cell::Filled(()));
                it.set(1, 1, Cell::Filled(()));
                it.set(1, 2, Cell::Filled(()));
                it
            },
            Piece::L1 => {
                let mut it = Imprint::empty(3, 3);
                it.set(0, 1, Cell::Filled(()));
                it.set(1, 1, Cell::Filled(()));
                it.set(2, 1, Cell::Filled(()));
                it.set(0, 2, Cell::Filled(()));
                it
            },
            Piece::L2 => {
                let mut it = Imprint::empty(3, 3);
                it.set(0, 0, Cell::Filled(()));
                it.set(1, 0, Cell::Filled(()));
                it.set(1, 1, Cell::Filled(()));
                it.set(1, 2, Cell::Filled(()));
                it
            },
            Piece::L3 => {
                let mut it = Imprint::empty(3, 3);
                it.set(2, 0, Cell::Filled(()));
                it.set(0, 1, Cell::Filled(()));
                it.set(1, 1, Cell::Filled(()));
                it.set(2, 1, Cell::Filled(()));
                it
            },
            Piece::L4 => {
                let mut it = Imprint::empty(3, 3);
                it.set(1, 0, Cell::Filled(()));
                it.set(1, 1, Cell::Filled(()));
                it.set(1, 2, Cell::Filled(()));
                it.set(2, 2, Cell::Filled(()));
                it
            },
            Piece::T1 => {
                let mut it = Imprint::empty(3, 3);
                it.set(0, 1, Cell::Filled(()));
                it.set(1, 1, Cell::Filled(()));
                it.set(2, 1, Cell::Filled(()));
                it.set(1, 2, Cell::Filled(()));
                it
            },
            Piece::T2 => {
                let mut it = Imprint::empty(3, 3);
                it.set(1, 0, Cell::Filled(()));
                it.set(0, 1, Cell::Filled(()));
                it.set(1, 1, Cell::Filled(()));
                it.set(1, 2, Cell::Filled(()));
                it
            },
            Piece::T3 => {
                let mut it = Imprint::empty(3, 3);
                it.set(1, 0, Cell::Filled(()));
                it.set(0, 1, Cell::Filled(()));
                it.set(1, 1, Cell::Filled(()));
                it.set(2, 1, Cell::Filled(()));
                it
            },
            Piece::T4 => {
                let mut it = Imprint::empty(3, 3);
                it.set(1, 0, Cell::Filled(()));
                it.set(1, 1, Cell::Filled(()));
                it.set(2, 1, Cell::Filled(()));
                it.set(1, 2, Cell::Filled(()));
                it
            },
        }
    }

    /// Rotate one step right; a pure function on the variant tag, validated
    /// against the board separately by the state machine.
    pub fn rotate_r(&self) -> (r: Piece)
        ensures
            r == spec_rotate_r(*self),
    {
        match *self {
            Piece::I1 => Piece::I2,
            Piece::I2 => Piece::I1,
            Piece::S1 => Piece::S2,
            Piece::S2 => Piece::S1,
            Piece::Z1 => Piece::Z2,
            Piece::Z2 => Piece::Z1,
            Piece::O1 => Piece::O1,
            Piece::J1 => Piece::J2,
            Piece::J2 => Piece::J3,
            Piece::J3 => Piece::J4,
            Piece::J4 => Piece::J1,
            Piece::L1 => Piece::L2,
            Piece::L2 => Piece::L3,
            Piece::L3 => Piece::L4,
            Piece::L4 => Piece::L1,
            Piece::T1 => Piece::T2,
            Piece::T2 => Piece::T3,
            Piece::T3 => Piece::T4,
            Piece::T4 => Piece::T1,
        }
    }

    /// Rotate one step left: three right rotations, deliberately not a
    /// separate table.
    pub fn rotate_l(&self) -> (r: Piece)
        ensures
            r == spec_rotate_r(spec_rotate_r(spec_rotate_r(*self))),
    {
        self.rotate_r().rotate_r().rotate_r()
    }

    /// Pick a spawn variant from a random sample, uniform over the 7 shape
    /// families (not over all 19 orientation variants).
    pub fn from_random(r: u32) -> (p: Piece)
        ensures
            p == spec_piece_from(r),
    {
        match r % 7 {
            0 => Piece::I1,
            1 => Piece::O1,
            2 => Piece::J1,
            3 => Piece::L1,
            4 => Piece::S1,
            5 => Piece::T1,
            _ => Piece::Z1,
        }
    }
}

/// The spawn variant chosen for a random sample: one representative per
/// shape family.
pub open spec fn spec_piece_from(r: u32) -> Piece {
    if r % 7 == 0 {
        Piece::I1
    } else if r % 7 == 1 {
        Piece::O1
    } else if r % 7 == 2 {
        Piece::J1
    } else if r % 7 == 3 {
        Piece::L1
    } else if r % 7 == 4 {
        Piece::S1
    } else if r % 7 == 5 {
        Piece::T1
    } else {
        Piece::Z1
    }
}

/// Rotation cycle laws: four right rotations restore any variant; the I, S
/// and Z pairs and the O fixed point already close after two.
pub proof fn lemma_rotation_cycles(p: Piece)
    ensures
        spec_rotate_r(spec_rotate_r(spec_rotate_r(spec_rotate_r(p)))) == p,
        (p is I1 || p is I2 || p is O1 || p is S1 || p is S2 || p is Z1 || p is Z2)
            ==> spec_rotate_r(spec_rotate_r(p)) == p,
{
}

/// Every variant's footprint has at least one filled cell; rotation keeps the
/// footprint size within its family.
pub proof fn lemma_footprint_occupied(p: Piece)
    ensures
        exists|x: int, y: int|
            0 <= x < footprint_size(p) && 0 <= y < footprint_size(p) && #[trigger] footprint_at(
                p,
                x,
                y,
            ),
{
    match p {
        Piece::I1 => {
            assert(footprint_at(p, 1, 2));
        },
        Piece::I2 => {
            assert(footprint_at(p, 2, 1));
        },
        Piece::O1 => {
            assert(footprint_at(p, 1, 1));
        },
        _ => {
            assert(footprint_at(p, 1, 1));
        },
    }
}

} // verus!
