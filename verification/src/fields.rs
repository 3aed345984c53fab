//! The snake game's selectable board layouts: a closed set of wall
//! patterns over the 10 x 20 grid, all keeping the starting row clear.

use crate::imprint::{Cell, Imprint};
use crate::snake::{CellData, HEIGHT, WIDTH};
use vstd::prelude::*;

verus! {

/// How many layouts the menu cycles through.
pub const MAX_FIELDS: u32 = 4;

/// Which cells of layout `n` hold a wall: the first layout is open; the
/// second bars two horizontal shelves; the third bars four vertical posts;
/// the fourth bars broken shelves hugging the side edges.
pub open spec fn field_wall(n: int, x: int, y: int) -> bool {
    if n == 1 {
        (y == 4 || y == 15) && 2 <= x < 8
    } else if n == 2 {
        (x == 2 || x == 7) && (3 <= y < 8 || 12 <= y < 17)
    } else if n == 3 {
        (y == 4 || y == 15) && (x < 3 || x >= 7)
    } else {
        false
    }
}

/// Whether layout `n` holds a wall at `(x, y)` (see `field_wall`).
fn is_wall(n: u32, x: usize, y: usize) -> (r: bool)
    ensures
        r == field_wall(n as int, x as int, y as int),
{
    if n == 1 {
        (y == 4 || y == 15) && 2 <= x && x < 8
    } else if n == 2 {
        (x == 2 || x == 7) && ((3 <= y && y < 8) || (12 <= y && y < 17))
    } else if n == 3 {
        (y == 4 || y == 15) && (x < 3 || x >= 7)
    } else {
        false
    }
}

/// Build board layout `n`; any index at or past `MAX_FIELDS` falls back to
/// the open layout.
pub fn field(n: u32) -> (r: Imprint<CellData>)
    ensures
        r.wf(),
        r.spec_width() == WIDTH,
        r.spec_height() == HEIGHT,
        forall|x: int, y: int|
            0 <= x < WIDTH && 0 <= y < HEIGHT ==> #[trigger] r.at(x, y) == (if field_wall(
                n as int,
                x,
                y,
            ) {
                Cell::Filled(CellData::Wall)
            } else {
                Cell::<CellData>::Empty
            }),
{
    let mut it = Imprint::empty(WIDTH, HEIGHT);
    let mut y: usize = 0;
    while y < HEIGHT
        invariant
            y <= HEIGHT,
            it.wf(),
            it.spec_width() == WIDTH,
            it.spec_height() == HEIGHT,
            forall|i: int, j: int|
                0 <= i < WIDTH && 0 <= j < y ==> #[trigger] it.at(i, j) == (if field_wall(
                    n as int,
                    i,
                    j,
                ) {
                    Cell::Filled(CellData::Wall)
                } else {
                    Cell::<CellData>::Empty
                }),
            forall|i: int, j: int|
                0 <= i < WIDTH && y <= j < HEIGHT ==> #[trigger] it.at(i, j) is Empty,
        decreases HEIGHT - y,
    {
        let mut x: usize = 0;
        while x < WIDTH
            invariant
                x <= WIDTH,
                y < HEIGHT,
                it.wf(),
                it.spec_width() == WIDTH,
                it.spec_height() == HEIGHT,
                forall|i: int, j: int|
                    0 <= i < WIDTH && 0 <= j < y ==> #[trigger] it.at(i, j) == (if field_wall(
                        n as int,
                        i,
                        j,
                    ) {
                        Cell::Filled(CellData::Wall)
                    } else {
                        Cell::<CellData>::Empty
                    }),
                forall|i: int|
                    0 <= i < x ==> #[trigger] it.at(i, y as int) == (if field_wall(
                        n as int,
                        i,
                        y as int,
                    ) {
                        Cell::Filled(CellData::Wall)
                    } else {
                        Cell::<CellData>::Empty
                    }),
                forall|i: int| x <= i < WIDTH ==> #[trigger] it.at(i, y as int) is Empty,
                forall|i: int, j: int|
                    0 <= i < WIDTH && y < j < HEIGHT ==> #[trigger] it.at(i, j) is Empty,
            decreases WIDTH - x,
        {
            if is_wall(n, x, y) {
                it.set(x, y, Cell::Filled(CellData::Wall));
            }
            x = x + 1;
        }
        y = y + 1;
    }
    it
}

} // verus!
