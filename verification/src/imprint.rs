//! The grid primitive shared by all three games: a fixed-size, row-major
//! matrix of cells, each either empty or filled with a game-specific payload,
//! with the collision / scan / mutation operations the state machines use.

use vstd::prelude::*;

verus! {

/// One grid position: empty, or filled with a payload (unit for the block
/// game, a segment direction for the snake, a robot-or-wreckage tag for the
/// robot game).
#[derive(Debug, Copy, Clone, PartialEq, Eq, Structural)]
pub enum Cell<T> {
    Empty,
    Filled(T),
}

impl<T> Cell<T> {
    pub fn is_empty(&self) -> (r: bool)
        ensures
            r == (*self is Empty),
    {
        match self {
            Cell::Empty => true,
            Cell::Filled(_) => false,
        }
    }
}

/// A `width` x `height` grid of cells, stored row-major.
pub struct Imprint<T> {
    cells: Vec<Cell<T>>,
    width: usize,
    height: usize,
}

/// Row-major index arithmetic: an in-bounds coordinate stays inside the store.
proof fn lemma_row_major(x: int, y: int, w: int, h: int)
    requires
        0 <= x < w,
        0 <= y < h,
    ensures
        0 <= y * w + x < w * h,
        y * w <= y * w + x,
{
    assert(y * w + x < w * h) by (nonlinear_arith)
        requires
            0 <= x < w,
            0 <= y < h,
    ;
    assert(0 <= y * w) by (nonlinear_arith)
        requires
            0 <= y,
            0 <= w,
    ;
}

impl<T> Imprint<T> {
    /// The backing store holds exactly one cell per coordinate.
    pub closed spec fn wf(self) -> bool {
        self.cells@.len() == self.width * self.height
    }

    pub closed spec fn spec_width(self) -> int {
        self.width as int
    }

    pub closed spec fn spec_height(self) -> int {
        self.height as int
    }

    /// The cell at column `x`, row `y`.
    pub closed spec fn at(self, x: int, y: int) -> Cell<T> {
        self.cells@[y * self.spec_width() + x]
    }

    /// An in-bounds coordinate.
    pub open spec fn in_bounds(self, x: int, y: int) -> bool {
        0 <= x < self.spec_width() && 0 <= y < self.spec_height()
    }

    /// An all-empty grid of the given dimensions.
    pub fn empty(width: usize, height: usize) -> (r: Imprint<T>)
        requires
            width * height <= usize::MAX,
        ensures
            r.wf(),
            r.spec_width() == width,
            r.spec_height() == height,
            forall|x: int, y: int|
                0 <= x < width && 0 <= y < height ==> #[trigger] r.at(x, y) is Empty,
    {
        proof {
            assert(width * height >= 0) by (nonlinear_arith);
        }
        let n = width * height;
        let mut cells: Vec<Cell<T>> = Vec::new();
        let mut i: usize = 0;
        while i < n
            invariant
                i <= n,
                cells@.len() == i,
                forall|j: int| 0 <= j < i ==> cells@[j] is Empty,
            decreases n - i,
        {
            cells.push(Cell::Empty);
            i = i + 1;
        }
        let r = Imprint { cells, width, height };
        proof {
            assert forall|x: int, y: int| 0 <= x < width && 0 <= y < height implies #[trigger] r.at(
                x,
                y,
            ) is Empty by {
                lemma_row_major(x, y, width as int, height as int);
            }
        }
        r
    }

    /// The grid's `(width, height)`.
    pub fn size(&self) -> (r: (usize, usize))
        ensures
            r.0 == self.spec_width(),
            r.1 == self.spec_height(),
    {
        (self.width, self.height)
    }
}

impl<T> Imprint<T> {
    /// Every cell of row `y` is filled.
    pub open spec fn row_is_full(self, y: int) -> bool {
        forall|x: int| 0 <= x < self.spec_width() ==> !(self.at(x, y) is Empty)
    }

    /// Every filled cell of `shape`, translated by `(x0, y0)`, lands within
    /// bounds of `self` and over an empty cell of `self`.
    pub open spec fn accepts_spec(self, shape: Imprint<T>, x0: int, y0: int) -> bool {
        forall|x: int, y: int|
            #![trigger shape.at(x, y)]
            shape.in_bounds(x, y) && !(shape.at(x, y) is Empty) ==> self.in_bounds(x0 + x, y0 + y)
                && self.at(x0 + x, y0 + y) is Empty
    }

    /// Position `(xx, yy)` is hit by a filled cell of `shape` translated by
    /// `(x0, y0)`.
    pub open spec fn covered_by(shape: Imprint<T>, x0: int, y0: int, xx: int, yy: int) -> bool {
        shape.in_bounds(xx - x0, yy - y0) && !(shape.at(xx - x0, yy - y0) is Empty)
    }
}

impl<T: Copy> Imprint<T> {
    pub fn get(&self, x: usize, y: usize) -> (r: Cell<T>)
        requires
            self.wf(),
            self.in_bounds(x as int, y as int),
        ensures
            r == self.at(x as int, y as int),
    {
        let len = self.cells.len();
        proof {
            lemma_row_major(x as int, y as int, self.spec_width(), self.spec_height());
        }
        self.cells[y * self.width + x]
    }

    pub fn set(&mut self, x: usize, y: usize, c: Cell<T>)
        requires
            old(self).wf(),
            old(self).in_bounds(x as int, y as int),
        ensures
            final(self).wf(),
            final(self).spec_width() == old(self).spec_width(),
            final(self).spec_height() == old(self).spec_height(),
            final(self).at(x as int, y as int) == c,
            forall|i: int, j: int|
                old(self).in_bounds(i, j) && !(i == x && j == y) ==> final(self).at(i, j) == old(
                    self,
                ).at(i, j),
    {
        let len = self.cells.len();
        proof {
            lemma_row_major(x as int, y as int, self.spec_width(), self.spec_height());
        }
        let idx = y * self.width + x;
        self.cells[idx] = c;
        proof {
            assert forall|i: int, j: int|
                old(self).in_bounds(i, j) && !(i == x && j == y) implies final(self).at(i, j)
                == old(self).at(i, j) by {
                lemma_row_major(i, j, self.spec_width(), self.spec_height());
                if j == y {
                    assert(i != x);
                } else {
                    assert(j * self.spec_width() + i != y * self.spec_width() + x)
                        by (nonlinear_arith)
                        requires
                            j != y,
                            0 <= i < self.spec_width(),
                            0 <= x < self.spec_width(),
                            0 <= j,
                            0 <= y,
                    ;
                }
            }
        }
    }
}

/// `v` occurs in `s`.
pub open spec fn seq_has(s: Seq<usize>, v: int) -> bool {
    exists|i: int| 0 <= i < s.len() && s[i] == v
}

/// The entries of `s` are strictly increasing.
pub open spec fn strictly_ascending(s: Seq<usize>) -> bool {
    forall|i: int, j: int| 0 <= i < j < s.len() ==> s[i] < s[j]
}

/// How many entries of `s` are strictly greater than `r`: for a list of
/// cleared row indices, the number of cleared rows below row `r`.
pub open spec fn num_after(s: Seq<usize>, r: int) -> int
    decreases s.len(),
{
    if s.len() == 0 {
        0
    } else {
        num_after(s.drop_last(), r) + if s.last() > r {
            1int
        } else {
            0int
        }
    }
}

/// If the first `m` entries of `s` are at most `r` and the rest are greater,
/// the count of entries greater than `r` is exactly what lies past `m`.
proof fn lemma_num_after_split(s: Seq<usize>, m: int, r: int)
    requires
        0 <= m <= s.len(),
        forall|i: int| 0 <= i < m ==> s[i] <= r,
        forall|i: int| m <= i < s.len() ==> s[i] > r,
    ensures
        num_after(s, r) == s.len() - m,
    decreases s.len(),
{
    if s.len() == 0 {
    } else if m == s.len() {
        lemma_num_after_split(s.drop_last(), m - 1, r);
    } else {
        lemma_num_after_split(s.drop_last(), m, r);
    }
}

/// In a strictly ascending sequence, indices `i <= j` are at least `j - i`
/// apart in value.
proof fn lemma_ascending_gap(s: Seq<usize>, i: int, j: int)
    requires
        strictly_ascending(s),
        0 <= i <= j < s.len(),
    ensures
        s[j] >= s[i] + (j - i),
    decreases j - i,
{
    if i < j {
        lemma_ascending_gap(s, i, j - 1);
    }
}

/// A strictly ascending list of values below `h` has at most `h` entries.
pub proof fn lemma_ascending_bounded_len(s: Seq<usize>, h: int)
    requires
        strictly_ascending(s),
        forall|i: int| 0 <= i < s.len() ==> s[i] < h,
        0 <= h,
    ensures
        s.len() <= h,
{
    if s.len() > 0 {
        lemma_ascending_gap(s, 0, s.len() - 1);
    }
}

/// `post` is `pre` compacted after clearing the rows listed in `lines`:
/// every surviving row shifts down by the number of cleared rows below it
/// and the vacated top rows are empty.
pub open spec fn grid_cleared<T>(pre: Imprint<T>, lines: Seq<usize>, post: Imprint<T>) -> bool {
    &&& post.wf()
    &&& post.spec_width() == pre.spec_width()
    &&& post.spec_height() == pre.spec_height()
    &&& forall|x: int, y: int|
        0 <= x < pre.spec_width() && 0 <= y < lines.len() ==> #[trigger] post.at(x, y) is Empty
    &&& forall|r: int, x: int|
        0 <= r < pre.spec_height() && !seq_has(lines, r) && 0 <= x < pre.spec_width() ==> lines.len()
            <= r + num_after(lines, r) < pre.spec_height() && post.at(x, r + num_after(lines, r))
            == #[trigger] pre.at(x, r)
}

/// `shape` translated by `(x0, y0)` hits `(xx, yy)` with a filled cell whose
/// shape row is earlier than `y_lim`, or in row `y_lim` before column `x_lim`.
spec fn covered_before<T>(
    shape: Imprint<T>,
    x0: int,
    y0: int,
    xx: int,
    yy: int,
    y_lim: int,
    x_lim: int,
) -> bool {
    Imprint::covered_by(shape, x0, y0, xx, yy) && (yy - y0 < y_lim || (yy - y0 == y_lim && xx - x0
        < x_lim))
}

impl<T: Copy> Imprint<T> {
    /// Blank one row in place without shifting any other row.
    #[verifier::loop_isolation(false)]
    pub fn clear_line(&mut self, line: usize)
        requires
            old(self).wf(),
            line < old(self).spec_height(),
        ensures
            final(self).wf(),
            final(self).spec_width() == old(self).spec_width(),
            final(self).spec_height() == old(self).spec_height(),
            forall|x: int|
                0 <= x < old(self).spec_width() ==> final(self).at(x, line as int) is Empty,
            forall|x: int, y: int|
                old(self).in_bounds(x, y) && y != line ==> final(self).at(x, y) == old(self).at(
                    x,
                    y,
                ),
    {
        let w = self.width;
        let mut x: usize = 0;
        while x < w
            invariant
                self.wf(),
                self.spec_width() == old(self).spec_width(),
                self.spec_height() == old(self).spec_height(),
                x <= w,
                forall|i: int| 0 <= i < x ==> self.at(i, line as int) is Empty,
                forall|i: int, j: int|
                    old(self).in_bounds(i, j) && j != line ==> self.at(i, j) == old(self).at(i, j),
                forall|i: int|
                    x <= i < old(self).spec_width() ==> self.at(i, line as int) == old(self).at(
                        i,
                        line as int,
                    ),
            decreases w - x,
        {
            self.set(x, line, Cell::Empty);
            x = x + 1;
        }
    }

    /// Copy row `src` onto row `dest`, leaving every other row unchanged.
    #[verifier::loop_isolation(false)]
    fn copy_row(&mut self, src: usize, dest: usize)
        requires
            old(self).wf(),
            src < old(self).spec_height(),
            dest < old(self).spec_height(),
        ensures
            final(self).wf(),
            final(self).spec_width() == old(self).spec_width(),
            final(self).spec_height() == old(self).spec_height(),
            forall|x: int|
                0 <= x < old(self).spec_width() ==> final(self).at(x, dest as int) == old(self).at(
                    x,
                    src as int,
                ),
            forall|x: int, y: int|
                old(self).in_bounds(x, y) && y != dest ==> final(self).at(x, y) == old(self).at(
                    x,
                    y,
                ),
    {
        let w = self.width;
        let mut x: usize = 0;
        while x < w
            invariant
                self.wf(),
                self.spec_width() == old(self).spec_width(),
                self.spec_height() == old(self).spec_height(),
                x <= w,
                forall|i: int|
                    0 <= i < x ==> self.at(i, dest as int) == old(self).at(i, src as int),
                forall|i: int, j: int|
                    old(self).in_bounds(i, j) && j != dest ==> self.at(i, j) == old(self).at(i, j),
                forall|i: int|
                    x <= i < old(self).spec_width() ==> self.at(i, dest as int) == old(self).at(
                        i,
                        dest as int,
                    ),
            decreases w - x,
        {
            let v = self.get(x, src);
            self.set(x, dest, v);
            x = x + 1;
        }
    }

    /// True iff every cell of the top `range` rows is empty (used to detect an
    /// obstructed spawn buffer).
    #[verifier::loop_isolation(false)]
    pub fn all_clear(&self, range: usize) -> (r: bool)
        requires
            self.wf(),
            range <= self.spec_height(),
        ensures
            r == (forall|x: int, y: int|
                0 <= x < self.spec_width() && 0 <= y < range ==> self.at(x, y) is Empty),
    {
        let w = self.width;
        let mut y: usize = 0;
        while y < range
            invariant
                y <= range,
                forall|i: int, j: int| 0 <= i < w && 0 <= j < y ==> self.at(i, j) is Empty,
            decreases range - y,
        {
            let mut x: usize = 0;
            while x < w
                invariant
                    x <= w,
                    y < range,
                    forall|i: int, j: int| 0 <= i < w && 0 <= j < y ==> self.at(i, j) is Empty,
                    forall|i: int| 0 <= i < x ==> self.at(i, y as int) is Empty,
                decreases w - x,
            {
                if !self.get(x, y).is_empty() {
                    return false;
                }
                x = x + 1;
            }
            y = y + 1;
        }
        true
    }

    /// True iff every filled cell of `other`, translated by `pos`, lands
    /// in bounds and over an empty cell. Never mutates; checked before any
    /// placement or move is committed.
    #[verifier::loop_isolation(false)]
    pub fn accepts(&self, other: &Imprint<T>, pos: (i32, i32)) -> (r: bool)
        requires
            self.wf(),
            other.wf(),
            self.spec_width() <= i32::MAX,
            self.spec_height() <= i32::MAX,
            other.spec_width() <= i32::MAX,
            other.spec_height() <= i32::MAX,
        ensures
            r == self.accepts_spec(*other, pos.0 as int, pos.1 as int),
    {
        let (ow, oh) = other.size();
        let (sw, sh) = self.size();
        let mut y: usize = 0;
        while y < oh
            invariant
                y <= oh,
                forall|xi: int, yi: int|
                    0 <= yi < y && other.in_bounds(xi, yi) && !(other.at(xi, yi) is Empty)
                        ==> self.in_bounds(pos.0 + xi, pos.1 + yi) && self.at(
                        pos.0 + xi,
                        pos.1 + yi,
                    ) is Empty,
            decreases oh - y,
        {
            let mut x: usize = 0;
            while x < ow
                invariant
                    x <= ow,
                    y < oh,
                    forall|xi: int, yi: int|
                        0 <= yi < y && other.in_bounds(xi, yi) && !(other.at(xi, yi) is Empty)
                            ==> self.in_bounds(pos.0 + xi, pos.1 + yi) && self.at(
                            pos.0 + xi,
                            pos.1 + yi,
                        ) is Empty,
                    forall|xi: int|
                        0 <= xi < x && !(other.at(xi, y as int) is Empty) ==> self.in_bounds(
                            pos.0 + xi,
                            pos.1 + y,
                        ) && self.at(pos.0 + xi, pos.1 + y) is Empty,
                decreases ow - x,
            {
                if !other.get(x, y).is_empty() {
                    let xx: i64 = pos.0 as i64 + x as i64;
                    let yy: i64 = pos.1 as i64 + y as i64;
                    if xx < 0 || yy < 0 || xx >= sw as i64 || yy >= sh as i64 {
                        proof {
                            assert(!(self.in_bounds(pos.0 + x, pos.1 + y) && self.at(
                                pos.0 + x,
                                pos.1 + y,
                            ) is Empty));
                            assert(!(other.at(x as int, y as int) is Empty));
                        }
                        return false;
                    }
                    if !self.get(xx as usize, yy as usize).is_empty() {
                        proof {
                            assert(!(self.at(pos.0 + x, pos.1 + y) is Empty));
                            assert(!(other.at(x as int, y as int) is Empty));
                        }
                        return false;
                    }
                }
                x = x + 1;
            }
            y = y + 1;
        }
        true
    }

    /// Copy every filled cell of `other`, translated by `pos`, into `self`,
    /// clipping cells that fall outside bounds rather than failing.
    #[verifier::loop_isolation(false)]
    pub fn stamp(&mut self, other: &Imprint<T>, pos: (i32, i32))
        requires
            old(self).wf(),
            other.wf(),
            old(self).spec_width() <= i32::MAX,
            old(self).spec_height() <= i32::MAX,
            other.spec_width() <= i32::MAX,
            other.spec_height() <= i32::MAX,
        ensures
            final(self).wf(),
            final(self).spec_width() == old(self).spec_width(),
            final(self).spec_height() == old(self).spec_height(),
            forall|xx: int, yy: int|
                old(self).in_bounds(xx, yy) ==> final(self).at(xx, yy) == (if Imprint::covered_by(
                    *other,
                    pos.0 as int,
                    pos.1 as int,
                    xx,
                    yy,
                ) {
                    other.at(xx - pos.0, yy - pos.1)
                } else {
                    old(self).at(xx, yy)
                }),
    {
        let (ow, oh) = other.size();
        let (sw, sh) = self.size();
        let mut y: usize = 0;
        while y < oh
            invariant
                y <= oh,
                self.wf(),
                self.spec_width() == old(self).spec_width(),
                self.spec_height() == old(self).spec_height(),
                forall|xx: int, yy: int|
                    old(self).in_bounds(xx, yy) ==> self.at(xx, yy) == (if covered_before(
                        *other,
                        pos.0 as int,
                        pos.1 as int,
                        xx,
                        yy,
                        y as int,
                        0,
                    ) {
                        other.at(xx - pos.0, yy - pos.1)
                    } else {
                        old(self).at(xx, yy)
                    }),
            decreases oh - y,
        {
            let mut x: usize = 0;
            while x < ow
                invariant
                    x <= ow,
                    y < oh,
                    self.wf(),
                    self.spec_width() == old(self).spec_width(),
                    self.spec_height() == old(self).spec_height(),
                    forall|xx: int, yy: int|
                        old(self).in_bounds(xx, yy) ==> self.at(xx, yy) == (if covered_before(
                            *other,
                            pos.0 as int,
                            pos.1 as int,
                            xx,
                            yy,
                            y as int,
                            x as int,
                        ) {
                            other.at(xx - pos.0, yy - pos.1)
                        } else {
                            old(self).at(xx, yy)
                        }),
                decreases ow - x,
            {
                let c = other.get(x, y);
                if !c.is_empty() {
                    let xx: i64 = pos.0 as i64 + x as i64;
                    let yy: i64 = pos.1 as i64 + y as i64;
                    if xx >= 0 && yy >= 0 && xx < sw as i64 && yy < sh as i64 {
                        self.set(xx as usize, yy as usize, c);
                    }
                }
                x = x + 1;
            }
            y = y + 1;
        }
    }

    /// Build a grid from a row pattern: a positive entry becomes `style`, a
    /// zero entry stays empty.
    #[verifier::loop_isolation(false)]
    pub fn from_footprint(print: &Vec<Vec<u8>>, style: Cell<T>) -> (r: Imprint<T>)
        requires
            print@.len() > 0,
            forall|i: int| 0 <= i < print@.len() ==> #[trigger] print@[i]@.len() == print@[0]@.len(),
            print@[0]@.len() * print@.len() <= usize::MAX,
        ensures
            r.wf(),
            r.spec_width() == print@[0]@.len(),
            r.spec_height() == print@.len(),
            forall|x: int, y: int|
                r.in_bounds(x, y) ==> r.at(x, y) == (if print@[y]@[x] > 0 {
                    style
                } else {
                    Cell::<T>::Empty
                }),
    {
        let h = print.len();
        let w = print[0].len();
        let mut it = Imprint::empty(w, h);
        let mut y: usize = 0;
        while y < h
            invariant
                y <= h,
                it.wf(),
                it.spec_width() == w,
                it.spec_height() == h,
                forall|i: int, j: int|
                    0 <= i < w && 0 <= j < y ==> it.at(i, j) == (if print@[j]@[i] > 0 {
                        style
                    } else {
                        Cell::<T>::Empty
                    }),
                forall|i: int, j: int| 0 <= i < w && y <= j < h ==> it.at(i, j) is Empty,
            decreases h - y,
        {
            let row = &print[y];
            let mut x: usize = 0;
            while x < w
                invariant
                    x <= w,
                    y < h,
                    row@ == print@[y as int]@,
                    it.wf(),
                    it.spec_width() == w,
                    it.spec_height() == h,
                    forall|i: int, j: int|
                        0 <= i < w && 0 <= j < y ==> it.at(i, j) == (if print@[j]@[i] > 0 {
                            style
                        } else {
                            Cell::<T>::Empty
                        }),
                    forall|i: int|
                        0 <= i < x ==> it.at(i, y as int) == (if print@[y as int]@[i] > 0 {
                            style
                        } else {
                            Cell::<T>::Empty
                        }),
                    forall|i: int| x <= i < w ==> it.at(i, y as int) is Empty,
                    forall|i: int, j: int| 0 <= i < w && y < j < h ==> it.at(i, j) is Empty,
                decreases w - x,
            {
                if row[x] > 0 {
                    it.set(x, y, style);
                }
                x = x + 1;
            }
            y = y + 1;
        }
        it
    }
}

impl<T> Imprint<T> {
    /// The indices of the full rows among rows `0 .. n`, in ascending order.
    pub open spec fn full_rows_upto(self, n: int) -> Seq<usize>
        decreases n,
    {
        if n <= 0 {
            Seq::empty()
        } else {
            self.full_rows_upto(n - 1) + if self.row_is_full(n - 1) {
                seq![(n - 1) as usize]
            } else {
                Seq::empty()
            }
        }
    }

    /// The indices of all full rows, in ascending order.
    pub open spec fn full_rows(self) -> Seq<usize> {
        self.full_rows_upto(self.spec_height())
    }
}

/// The full-row index list is strictly ascending, lies below `n`, and holds
/// exactly the full rows.
pub proof fn lemma_full_rows_props<T>(g: Imprint<T>, n: int)
    requires
        n <= usize::MAX,
    ensures
        strictly_ascending(g.full_rows_upto(n)),
        forall|i: int|
            0 <= i < g.full_rows_upto(n).len() ==> 0 <= #[trigger] g.full_rows_upto(n)[i] < n,
        forall|r: int| #[trigger]
            seq_has(g.full_rows_upto(n), r) <==> (0 <= r < n && g.row_is_full(r)),
    decreases n,
{
    if n <= 0 {
        assert forall|r: int| #[trigger] seq_has(g.full_rows_upto(n), r) implies (0 <= r < n
            && g.row_is_full(r)) by {}
    } else {
        lemma_full_rows_props(g, n - 1);
        let pre = g.full_rows_upto(n - 1);
        let cur = g.full_rows_upto(n);
        if g.row_is_full(n - 1) {
            assert(cur =~= pre + seq![(n - 1) as usize]);
            assert(cur.len() == pre.len() + 1);
            assert(forall|i: int| 0 <= i < pre.len() ==> cur[i] == pre[i]);
            assert(cur[cur.len() - 1] == (n - 1) as usize);
            assert forall|r: int| #[trigger] seq_has(cur, r) implies (0 <= r < n && g.row_is_full(
                r,
            )) by {
                let i = choose|i: int| 0 <= i < cur.len() && cur[i] == r;
                if i < pre.len() {
                    assert(seq_has(pre, r));
                }
            }
            assert forall|r: int| (0 <= r < n && g.row_is_full(r)) implies #[trigger] seq_has(
                cur,
                r,
            ) by {
                if r < n - 1 {
                    assert(seq_has(pre, r));
                    let i = choose|i: int| 0 <= i < pre.len() && pre[i] == r;
                    assert(cur[i] == r);
                } else {
                    assert(cur[cur.len() - 1] == r);
                }
            }
        } else {
            assert(cur =~= pre);
            assert forall|r: int| (0 <= r < n && g.row_is_full(r)) implies #[trigger] seq_has(
                cur,
                r,
            ) by {
                assert(r != n - 1);
                assert(seq_has(pre, r));
            }
            assert forall|r: int| #[trigger] seq_has(cur, r) implies (0 <= r < n && g.row_is_full(
                r,
            )) by {
                assert(seq_has(pre, r));
            }
        }
    }
}

/// At most one full row per scanned row.
pub proof fn lemma_full_rows_len<T>(g: Imprint<T>, n: int)
    ensures
        g.full_rows_upto(n).len() <= (if n >= 0 {
            n
        } else {
            0
        }),
    decreases n,
{
    if n > 0 {
        lemma_full_rows_len(g, n - 1);
    }
}

impl<T: Copy> Imprint<T> {
    /// Scan rows top to bottom, appending the index of every full row (in
    /// ascending order) to `results`; true iff at least one was found.
    #[verifier::loop_isolation(false)]
    pub fn full_lines(&self, results: &mut Vec<usize>) -> (r: bool)
        requires
            self.wf(),
        ensures
            final(results)@ == old(results)@ + self.full_rows(),
            r == (self.full_rows().len() > 0),
    {
        let w = self.width;
        let h = self.height;
        let mut all = false;
        let mut y: usize = 0;
        while y < h
            invariant
                y <= h,
                results@ == old(results)@ + self.full_rows_upto(y as int),
                all == (self.full_rows_upto(y as int).len() > 0),
            decreases h - y,
        {
            let mut rowfull = true;
            let mut x: usize = 0;
            while x < w
                invariant
                    x <= w,
                    y < h,
                    rowfull ==> forall|i: int| 0 <= i < x ==> !(self.at(i, y as int) is Empty),
                    !rowfull ==> exists|i: int| 0 <= i < x && self.at(i, y as int) is Empty,
                decreases w - x,
            {
                if self.get(x, y).is_empty() {
                    rowfull = false;
                }
                x = x + 1;
            }
            proof {
                assert(rowfull == self.row_is_full(y as int));
            }
            if rowfull {
                results.push(y);
                proof {
                    assert(results@ =~= old(results)@ + self.full_rows_upto(y as int + 1));
                }
            } else {
                proof {
                    assert(self.full_rows_upto(y as int + 1) =~= self.full_rows_upto(y as int));
                }
            }
            all = all || rowfull;
            y = y + 1;
        }
        all
    }

    /// Compact the grid after line clears: every surviving row shifts down by
    /// the number of cleared rows below it, and the vacated top rows become
    /// empty. `lines` must list the cleared row indices in ascending order; it
    /// is fully consumed.
    #[verifier::rlimit(100)]
    pub fn clear_lines(&mut self, lines: &mut Vec<usize>)
        requires
            old(self).wf(),
            strictly_ascending(old(lines)@),
            forall|i: int| 0 <= i < old(lines)@.len() ==> old(lines)@[i] < old(self).spec_height(),
        ensures
            final(lines)@.len() == 0,
            grid_cleared(*old(self), old(lines)@, *final(self)),
    {
        let w = self.width;
        let h = self.height;
        let k = lines.len();
        let ghost l0 = lines@;
        let mut src: usize = h;
        let mut dest: usize = h;
        while src > 0
            invariant
                self.wf(),
                self.spec_width() == old(self).spec_width(),
                self.spec_height() == old(self).spec_height(),
                w == old(self).spec_width(),
                h == old(self).spec_height(),
                strictly_ascending(l0),
                forall|i: int| 0 <= i < l0.len() ==> l0[i] < h,
                k == l0.len(),
                src <= h,
                dest <= h,
                lines@ =~= l0.subrange(0, lines@.len() as int),
                lines@.len() <= k,
                dest == src + (k - lines@.len()),
                forall|i: int| 0 <= i < lines@.len() ==> l0[i] < src,
                forall|i: int| lines@.len() <= i < k ==> l0[i] >= src,
                forall|x: int, y: int|
                    0 <= x < w && 0 <= y < dest ==> self.at(x, y) == old(self).at(x, y),
                forall|r: int, x: int|
                    src <= r < h && !seq_has(l0, r) && 0 <= x < w ==> dest <= r + num_after(l0, r)
                        < h && self.at(x, r + num_after(l0, r)) == #[trigger] old(self).at(x, r),
            decreases src,
        {
            src = src - 1;
            let mut cleared = false;
            if lines.len() > 0 {
                let last = lines[lines.len() - 1];
                if last == src {
                    lines.pop();
                    cleared = true;
                    proof {
                        assert(lines@ =~= l0.subrange(0, lines@.len() as int));
                    }
                }
            }
            if !cleared {
                proof {
                    let m = lines@.len() as int;
                    assert forall|i: int| 0 <= i < m implies l0[i] <= src - 1 by {
                        if m > 0 && i < m - 1 {
                            assert(l0[i] < l0[m - 1]);
                        }
                    }
                    assert forall|i: int| m <= i < k implies l0[i] > src by {}
                    lemma_num_after_split(l0.subrange(0, k as int), m, src as int);
                    assert(l0.subrange(0, k as int) =~= l0);
                    assert(num_after(l0, src as int) == k - m);
                    assert(!seq_has(l0, src as int));
                }
                dest = dest - 1;
                self.copy_row(src, dest);
            }
        }
        proof {
            if lines@.len() > 0 {
                assert(l0[0] < src);
            }
            assert(lines@.len() == 0);
            assert(dest == k);
        }
        let mut y: usize = 0;
        while y < k
            invariant
                y <= k,
                k <= h,
                self.wf(),
                self.spec_width() == old(self).spec_width(),
                self.spec_height() == old(self).spec_height(),
                w == old(self).spec_width(),
                h == old(self).spec_height(),
                k == l0.len(),
                dest == k,
                lines@.len() == 0,
                forall|x: int, j: int| 0 <= x < w && 0 <= j < y ==> self.at(x, j) is Empty,
                forall|x: int, j: int|
                    0 <= x < w && y <= j < dest ==> self.at(x, j) == old(self).at(x, j),
                forall|r: int, x: int|
                    0 <= r < h && !seq_has(l0, r) && 0 <= x < w ==> k <= r + num_after(l0, r) < h
                        && self.at(x, r + num_after(l0, r)) == #[trigger] old(self).at(x, r),
            decreases k - y,
        {
            self.clear_line(y);
            y = y + 1;
        }
    }

    /// Fill row `line` with `fill`, then knock out up to `width / 2` randomly
    /// chosen cells; used to seed starting clutter, not during normal play.
    /// Whatever the draws, at most `width / 2` cells of the row end up
    /// knocked out, so at least the rest still hold `fill`.
    #[verifier::loop_isolation(false)]
    pub fn random_line(&mut self, line: usize, fill: Cell<T>)
        requires
            old(self).wf(),
            line < old(self).spec_height(),
            old(self).spec_width() >= 1,
        ensures
            final(self).wf(),
            final(self).spec_width() == old(self).spec_width(),
            final(self).spec_height() == old(self).spec_height(),
            forall|x: int|
                0 <= x < old(self).spec_width() ==> ((final(self).at(x, line as int) == fill) || (
                final(self).at(x, line as int) is Empty)),
            forall|x: int, y: int|
                old(self).in_bounds(x, y) && y != line ==> final(self).at(x, y) == old(self).at(
                    x,
                    y,
                ),
            count_differing(*final(self), line as int, fill, old(self).spec_width()) <= old(
                self,
            ).spec_width() / 2,
            old(self).spec_width() >= 2 ==> exists|x: int|
                0 <= x < old(self).spec_width() && final(self).at(x, line as int) is Empty,
    {
        let w = self.width;
        let mut x: usize = 0;
        while x < w
            invariant
                x <= w,
                self.wf(),
                self.spec_width() == old(self).spec_width(),
                self.spec_height() == old(self).spec_height(),
                forall|i: int| 0 <= i < x ==> self.at(i, line as int) == fill,
                forall|i: int, j: int|
                    old(self).in_bounds(i, j) && j != line ==> self.at(i, j) == old(self).at(i, j),
            decreases w - x,
        {
            self.set(x, line, fill);
            x = x + 1;
        }
        proof {
            lemma_count_differing_zero(*self, line as int, fill, w as int);
        }
        let mut i: usize = 0;
        while i < w / 2
            invariant
                i <= w / 2,
                self.wf(),
                self.spec_width() == old(self).spec_width(),
                self.spec_height() == old(self).spec_height(),
                forall|j: int|
                    0 <= j < w ==> (self.at(j, line as int) == fill || self.at(
                        j,
                        line as int,
                    ) is Empty),
                forall|j: int, y: int|
                    old(self).in_bounds(j, y) && y != line ==> self.at(j, y) == old(self).at(j, y),
                count_differing(*self, line as int, fill, w as int) <= i,
                i >= 1 ==> exists|j: int| 0 <= j < w && self.at(j, line as int) is Empty,
            decreases w / 2 - i,
        {
            let r = crate::rng::random_u32();
            let x = (r as usize) % w;
            let ghost before = *self;
            self.set(x, line, Cell::Empty);
            proof {
                lemma_count_differing_one_change(
                    before,
                    *self,
                    line as int,
                    fill,
                    x as int,
                    w as int,
                );
            }
            i = i + 1;
        }
    }
}

/// How many cells of row `y`, among columns `0 .. n`, differ from `c`.
pub open spec fn count_differing<T>(g: Imprint<T>, y: int, c: Cell<T>, n: int) -> int
    decreases n,
{
    if n <= 0 {
        0
    } else {
        count_differing(g, y, c, n - 1) + if g.at(n - 1, y) == c {
            0int
        } else {
            1int
        }
    }
}

/// Two grids whose row `y` agrees pointwise have the same differing-cell
/// count there.
pub proof fn lemma_count_differing_congruence<T>(
    g1: Imprint<T>,
    g2: Imprint<T>,
    y: int,
    c: Cell<T>,
    n: int,
)
    requires
        forall|i: int| 0 <= i < n ==> g1.at(i, y) == g2.at(i, y),
    ensures
        count_differing(g1, y, c, n) == count_differing(g2, y, c, n),
    decreases n,
{
    if n > 0 {
        lemma_count_differing_congruence(g1, g2, y, c, n - 1);
    }
}

/// Changing at most one cell of a row raises its differing-cell count by at
/// most one.
proof fn lemma_count_differing_one_change<T>(
    g1: Imprint<T>,
    g2: Imprint<T>,
    y: int,
    c: Cell<T>,
    x: int,
    n: int,
)
    requires
        forall|i: int| 0 <= i < n && i != x ==> g1.at(i, y) == g2.at(i, y),
    ensures
        count_differing(g2, y, c, n) <= count_differing(g1, y, c, n) + 1,
    decreases n,
{
    if n > 0 {
        if x == n - 1 {
            lemma_count_differing_congruence(g1, g2, y, c, n - 1);
        } else {
            lemma_count_differing_one_change(g1, g2, y, c, x, n - 1);
        }
    }
}

/// A row that holds `c` everywhere has no differing cells.
proof fn lemma_count_differing_zero<T>(g: Imprint<T>, y: int, c: Cell<T>, n: int)
    requires
        forall|i: int| 0 <= i < n ==> g.at(i, y) == c,
    ensures
        count_differing(g, y, c, n) == 0,
    decreases n,
{
    if n > 0 {
        lemma_count_differing_zero(g, y, c, n - 1);
    }
}

/// Filled cells of row `y`, among columns `0 .. n`.
pub open spec fn filled_in_row<T>(g: Imprint<T>, y: int, n: int) -> int
    decreases n,
{
    if n <= 0 {
        0
    } else {
        filled_in_row(g, y, n - 1) + if g.at(n - 1, y) is Empty {
            0int
        } else {
            1int
        }
    }
}

/// Filled cells of the whole row `y`.
pub open spec fn row_filled<T>(g: Imprint<T>, y: int) -> int {
    filled_in_row(g, y, g.spec_width())
}

/// Filled cells in rows `0 .. n`.
pub open spec fn total_filled_upto<T>(g: Imprint<T>, n: int) -> int
    decreases n,
{
    if n <= 0 {
        0
    } else {
        total_filled_upto(g, n - 1) + row_filled(g, n - 1)
    }
}

/// Filled cells of the whole grid.
pub open spec fn total_filled<T>(g: Imprint<T>) -> int {
    total_filled_upto(g, g.spec_height())
}

/// The filled cells of the rows listed in `lines`, summed.
pub open spec fn sum_cleared_rows<T>(g: Imprint<T>, lines: Seq<usize>) -> int
    decreases lines.len(),
{
    if lines.len() == 0 {
        0
    } else {
        sum_cleared_rows(g, lines.drop_last()) + row_filled(g, lines.last() as int)
    }
}

/// The surviving rows' filled cells among rows `0 .. n`: every row not
/// listed in `lines` contributes its count.
spec fn survivors_sum<T>(g: Imprint<T>, lines: Seq<usize>, n: int) -> int
    decreases n,
{
    if n <= 0 {
        0
    } else {
        survivors_sum(g, lines, n - 1) + if seq_has(lines, n - 1) {
            0int
        } else {
            row_filled(g, n - 1)
        }
    }
}

/// The cleared rows' filled cells among rows `0 .. n`: every row listed in
/// `lines` contributes its count.
spec fn cleared_sum_upto<T>(g: Imprint<T>, lines: Seq<usize>, n: int) -> int
    decreases n,
{
    if n <= 0 {
        0
    } else {
        cleared_sum_upto(g, lines, n - 1) + if seq_has(lines, n - 1) {
            row_filled(g, n - 1)
        } else {
            0int
        }
    }
}

/// Two rows that agree pointwise have the same filled-cell count.
proof fn lemma_filled_in_row_congruence<T>(
    g1: Imprint<T>,
    g2: Imprint<T>,
    y1: int,
    y2: int,
    n: int,
)
    requires
        forall|i: int| 0 <= i < n ==> g1.at(i, y1) == g2.at(i, y2),
    ensures
        filled_in_row(g1, y1, n) == filled_in_row(g2, y2, n),
    decreases n,
{
    if n > 0 {
        lemma_filled_in_row_congruence(g1, g2, y1, y2, n - 1);
    }
}

/// An all-empty row has no filled cells.
proof fn lemma_filled_in_row_empty<T>(g: Imprint<T>, y: int, n: int)
    requires
        forall|i: int| 0 <= i < n ==> g.at(i, y) is Empty,
    ensures
        filled_in_row(g, y, n) == 0,
    decreases n,
{
    if n > 0 {
        lemma_filled_in_row_empty(g, y, n - 1);
    }
}

/// A full row has one filled cell per column.
proof fn lemma_filled_in_row_full<T>(g: Imprint<T>, y: int, n: int)
    requires
        forall|i: int| 0 <= i < n ==> !(g.at(i, y) is Empty),
    ensures
        filled_in_row(g, y, n) == (if n >= 0 {
            n
        } else {
            0
        }),
    decreases n,
{
    if n > 0 {
        lemma_filled_in_row_full(g, y, n - 1);
    }
}

/// All-empty leading rows contribute nothing to the census.
proof fn lemma_total_upto_empty<T>(g: Imprint<T>, n: int)
    requires
        forall|x: int, y: int| 0 <= x < g.spec_width() && 0 <= y < n ==> g.at(x, y) is Empty,
    ensures
        total_filled_upto(g, n) == 0,
    decreases n,
{
    if n > 0 {
        lemma_total_upto_empty(g, n - 1);
        lemma_filled_in_row_empty(g, n - 1, g.spec_width());
    }
}

/// Every row is a survivor or a cleared row, so the census splits.
proof fn lemma_census_partition<T>(g: Imprint<T>, lines: Seq<usize>, n: int)
    ensures
        total_filled_upto(g, n) == survivors_sum(g, lines, n) + cleared_sum_upto(g, lines, n),
    decreases n,
{
    if n > 0 {
        lemma_census_partition(g, lines, n - 1);
    }
}

/// Stepping the threshold of `num_after` down by one picks up exactly the
/// entries equal to the old threshold.
proof fn lemma_num_after_step(s: Seq<usize>, r: int)
    requires
        strictly_ascending(s),
    ensures
        num_after(s, r - 1) == num_after(s, r) + (if seq_has(s, r) {
            1int
        } else {
            0int
        }),
    decreases s.len(),
{
    if s.len() > 0 {
        let pre = s.drop_last();
        assert(strictly_ascending(pre)) by {
            assert(forall|i: int| 0 <= i < pre.len() ==> pre[i] == s[i]);
        }
        lemma_num_after_step(pre, r);
        assert(forall|i: int| 0 <= i < pre.len() ==> pre[i] == s[i]);
        if seq_has(s, r) {
            let w = choose|i: int| 0 <= i < s.len() && s[i] == r;
            if w < s.len() - 1 {
                assert(pre[w] == r);
                assert(seq_has(pre, r));
                assert(s[w] < s[s.len() - 1]);
            } else {
                assert(s.last() == r);
                if seq_has(pre, r) {
                    let w2 = choose|i: int| 0 <= i < pre.len() && pre[i] == r;
                    assert(s[w2] < s[s.len() - 1]);
                }
            }
        } else {
            if seq_has(pre, r) {
                let w2 = choose|i: int| 0 <= i < pre.len() && pre[i] == r;
                assert(s[w2] == r);
            }
        }
    } else {
        assert(!seq_has(s, r));
    }
}

/// Below any threshold under every entry, `num_after` counts them all.
proof fn lemma_num_after_all(s: Seq<usize>, r: int)
    requires
        r < 0,
    ensures
        num_after(s, r) == s.len(),
    decreases s.len(),
{
    if s.len() > 0 {
        lemma_num_after_all(s.drop_last(), r);
    }
}

/// A strictly ascending list of row indices below `h` has at most
/// `h - 1 - r` entries above row `r`, so a surviving row lands in bounds.
proof fn lemma_num_after_bound(s: Seq<usize>, r: int, h: int)
    requires
        strictly_ascending(s),
        forall|i: int| 0 <= i < s.len() ==> s[i] < h,
        0 <= r < h,
    ensures
        0 <= num_after(s, r) <= h - 1 - r,
    decreases s.len(),
{
    if s.len() == 0 {
    } else {
        let pre = s.drop_last();
        assert(forall|i: int| 0 <= i < pre.len() ==> pre[i] == s[i]);
        if s.last() > r {
            assert forall|i: int| 0 <= i < pre.len() implies pre[i] < s.last() by {
                assert(s[i] < s[s.len() - 1]);
            }
            lemma_num_after_bound(pre, r, s.last() as int);
        } else {
            lemma_num_after_bound(pre, r, h);
        }
    }
}

/// At or above every entry, `num_after` counts nothing.
proof fn lemma_num_after_none(s: Seq<usize>, r: int)
    requires
        forall|i: int| 0 <= i < s.len() ==> s[i] <= r,
    ensures
        num_after(s, r) == 0,
    decreases s.len(),
{
    if s.len() > 0 {
        assert(forall|i: int| 0 <= i < s.drop_last().len() ==> s.drop_last()[i] == s[i]);
        lemma_num_after_none(s.drop_last(), r);
    }
}

/// The census of the compacted grid's bottom rows equals the surviving
/// rows' census, scanned row by row.
proof fn lemma_cleared_total_upto<T>(pre: Imprint<T>, lines: Seq<usize>, post: Imprint<T>, n: int)
    requires
        strictly_ascending(lines),
        forall|i: int| 0 <= i < lines.len() ==> lines[i] < pre.spec_height(),
        grid_cleared(pre, lines, post),
        0 <= n <= pre.spec_height(),
    ensures
        0 <= n + num_after(lines, n - 1) <= pre.spec_height(),
        total_filled_upto(post, n + num_after(lines, n - 1)) == survivors_sum(pre, lines, n)
            + total_filled_upto(post, lines.len() as int),
    decreases n,
{
    let k = lines.len() as int;
    let h = pre.spec_height();
    if n == 0 {
        lemma_num_after_all(lines, -1);
        lemma_ascending_bounded_len(lines, h);
    } else {
        lemma_cleared_total_upto(pre, lines, post, n - 1);
        lemma_num_after_step(lines, n - 1);
        lemma_num_after_bound(lines, n - 1, h);
        if seq_has(lines, n - 1) {
            assert(n + num_after(lines, n - 1) == (n - 1) + num_after(lines, n - 2));
        } else {
            let target = (n - 1) + num_after(lines, n - 1);
            assert(n + num_after(lines, n - 1) == target + 1);
            assert forall|x: int| 0 <= x < pre.spec_width() implies post.at(x, target) == pre.at(
                x,
                n - 1,
            ) by {
                assert(post.at(x, (n - 1) + num_after(lines, n - 1)) == pre.at(x, n - 1));
            }
            lemma_filled_in_row_congruence(post, pre, target, n - 1, pre.spec_width());
            assert(row_filled(post, target) == row_filled(pre, n - 1));
        }
    }
}

/// Swapping the row scan of the cleared rows' census for a walk of the
/// cleared list itself.
proof fn lemma_cleared_scan_step<T>(g: Imprint<T>, s: Seq<usize>, n: int)
    requires
        strictly_ascending(s),
        s.len() > 0,
    ensures
        cleared_sum_upto(g, s, n) == cleared_sum_upto(g, s.drop_last(), n) + (if s.last() < n {
            row_filled(g, s.last() as int)
        } else {
            0int
        }),
    decreases n,
{
    let pre = s.drop_last();
    assert(forall|i: int| 0 <= i < pre.len() ==> pre[i] == s[i]);
    if n > 0 {
        lemma_cleared_scan_step(g, s, n - 1);
        if seq_has(s, n - 1) {
            let w = choose|i: int| 0 <= i < s.len() && s[i] == n - 1;
            if w < s.len() - 1 {
                assert(pre[w] == (n - 1) as usize);
                assert(seq_has(pre, n - 1));
                assert(s[w] < s[s.len() - 1]);
            }
        }
        if seq_has(pre, n - 1) {
            let w2 = choose|i: int| 0 <= i < pre.len() && pre[i] == n - 1;
            assert(s[w2] == (n - 1) as usize);
            assert(seq_has(s, n - 1));
            assert(s[w2] < s[s.len() - 1]);
        }
    }
}

/// The row scan of the cleared rows' census agrees with summing over the
/// cleared list.
proof fn lemma_cleared_scan<T>(g: Imprint<T>, s: Seq<usize>, h: int)
    requires
        strictly_ascending(s),
        forall|i: int| 0 <= i < s.len() ==> s[i] < h,
    ensures
        cleared_sum_upto(g, s, h) == sum_cleared_rows(g, s),
    decreases s.len(),
{
    if s.len() > 0 {
        let pre = s.drop_last();
        assert(strictly_ascending(pre) && (forall|i: int|
            0 <= i < pre.len() ==> #[trigger] pre[i] == s[i])) by {
            assert(forall|i: int| 0 <= i < pre.len() ==> pre[i] == s[i]);
        }
        lemma_cleared_scan(g, pre, h);
        lemma_cleared_scan_step(g, s, h);
    } else {
        lemma_cleared_scan_zero(g, s, h);
    }
}

/// An empty cleared list contributes nothing at any scan length.
proof fn lemma_cleared_scan_zero<T>(g: Imprint<T>, s: Seq<usize>, n: int)
    requires
        s.len() == 0,
    ensures
        cleared_sum_upto(g, s, n) == 0,
    decreases n,
{
    if n > 0 {
        lemma_cleared_scan_zero(g, s, n - 1);
        assert(!seq_has(s, n - 1));
    }
}

/// Compaction preserves the filled-cell census: every filled cell outside
/// the cleared rows survives the downward shift, so the grid's total drops
/// by exactly the cleared rows' filled cells.
pub proof fn lemma_clear_lines_filled_count<T>(
    pre: Imprint<T>,
    lines: Seq<usize>,
    post: Imprint<T>,
)
    requires
        strictly_ascending(lines),
        forall|i: int| 0 <= i < lines.len() ==> lines[i] < pre.spec_height(),
        grid_cleared(pre, lines, post),
    ensures
        total_filled(post) == total_filled(pre) - sum_cleared_rows(pre, lines),
{
    let h = pre.spec_height();
    let k = lines.len() as int;
    assert(k <= h) by {
        lemma_ascending_bounded_len(lines, h);
    }
    assert(total_filled_upto(post, k) == 0) by {
        assert forall|x: int, y: int|
            0 <= x < post.spec_width() && 0 <= y < k implies post.at(x, y) is Empty by {}
        lemma_total_upto_empty(post, k);
    }
    lemma_cleared_total_upto(pre, lines, post, h);
    lemma_num_after_none(lines, h - 1);
    lemma_census_partition(pre, lines, h);
    lemma_cleared_scan(pre, lines, h);
}

/// Clearing rows that were all full removes exactly `width` cells per row.
pub proof fn lemma_sum_cleared_full_rows<T>(g: Imprint<T>, lines: Seq<usize>)
    requires
        forall|i: int| 0 <= i < lines.len() ==> g.row_is_full(#[trigger] lines[i] as int),
        g.spec_width() >= 0,
    ensures
        sum_cleared_rows(g, lines) == lines.len() * g.spec_width(),
    decreases lines.len(),
{
    if lines.len() > 0 {
        let pre = lines.drop_last();
        assert(forall|i: int| 0 <= i < pre.len() ==> pre[i] == lines[i]);
        lemma_sum_cleared_full_rows(g, pre);
        assert(g.row_is_full(lines.last() as int)) by {
            assert(lines[lines.len() - 1] == lines.last());
        }
        lemma_filled_in_row_full(g, lines.last() as int, g.spec_width());
        assert(lines.len() * g.spec_width() == pre.len() * g.spec_width() + g.spec_width())
            by (nonlinear_arith)
            requires
                pre.len() == lines.len() - 1,
        ;
    } else {
        assert(lines.len() * g.spec_width() == 0) by (nonlinear_arith)
            requires
                lines.len() == 0,
        ;
    }
}

/// The collision check characterizes stamping: `accepts` holds exactly when
/// every filled cell of the shape lands in bounds and stamping at that offset
/// would cover no already-filled cell of the grid.
pub proof fn lemma_accepts_characterizes_stamp<T>(g: Imprint<T>, s: Imprint<T>, x0: int, y0: int)
    ensures
        g.accepts_spec(s, x0, y0) <==> ((forall|x: int, y: int|
            #![trigger s.at(x, y)]
            s.in_bounds(x, y) && !(s.at(x, y) is Empty) ==> g.in_bounds(x0 + x, y0 + y)) && (forall|
            xx: int,
            yy: int,
        |
            #![trigger g.at(xx, yy)]
            g.in_bounds(xx, yy) && !(g.at(xx, yy) is Empty) ==> !Imprint::covered_by(
                s,
                x0,
                y0,
                xx,
                yy,
            ))),
{
    if g.accepts_spec(s, x0, y0) {
        assert forall|xx: int, yy: int|
            g.in_bounds(xx, yy) && !(#[trigger] g.at(xx, yy) is Empty) implies !Imprint::covered_by(
            s,
            x0,
            y0,
            xx,
            yy,
        ) by {
            if Imprint::covered_by(s, x0, y0, xx, yy) {
                assert(!(s.at(xx - x0, yy - y0) is Empty));
                assert(g.at(x0 + (xx - x0), y0 + (yy - y0)) is Empty);
            }
        }
    }
    if ((forall|x: int, y: int|
        #![trigger s.at(x, y)]
        s.in_bounds(x, y) && !(s.at(x, y) is Empty) ==> g.in_bounds(x0 + x, y0 + y)) && (forall|
        xx: int,
        yy: int,
    |
        #![trigger g.at(xx, yy)]
        g.in_bounds(xx, yy) && !(g.at(xx, yy) is Empty) ==> !Imprint::covered_by(
            s,
            x0,
            y0,
            xx,
            yy,
        ))) {
        assert forall|x: int, y: int|
            s.in_bounds(x, y) && !(#[trigger] s.at(x, y) is Empty) implies g.in_bounds(
            x0 + x,
            y0 + y,
        ) && g.at(x0 + x, y0 + y) is Empty by {
            assert(g.in_bounds(x0 + x, y0 + y));
            if !(g.at(x0 + x, y0 + y) is Empty) {
                assert(Imprint::covered_by(s, x0, y0, x0 + x, y0 + y)) by {
                    assert(s.at((x0 + x) - x0, (y0 + y) - y0) == s.at(x, y));
                }
            }
        }
    }
}

} // verus!
