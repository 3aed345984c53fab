//! The robot-evasion game: a player dodging a pack of robots over a 10 x 20
//! grid. Robots step greedily toward the player; robots colliding with each
//! other or with wreckage become permanent wreckage; a limited stock of
//! teleports relocates the player and detonates a clipped 3 x 3 blast at
//! both ends. The shared menu / pause / raising / lowering lifecycle wraps
//! each run.

use crate::game::{sat_add, sat_add32, InputState, TickResult};
use crate::imprint::{Cell, Imprint};
use crate::score_table::{table_bumped, ScoreTable};
use vstd::prelude::*;

verus! {

pub const WIDTH: usize = 10;

pub const HEIGHT: usize = 20;

pub const MAX_LEVEL: u32 = crate::FRAMERATE;

/// Highest selectable robot pack size.
pub const MAX_ROBOTS: u32 = 20;

/// Teleport charges a fresh run starts with.
pub const START_TELEPORTS: u32 = 8;

/// The difficulty pair keying the best-score table: pack size and level.
#[derive(Debug, Copy, Clone, PartialEq, Eq, Structural)]
pub struct Config {
    pub robots: u32,
    pub level: u32,
}

/// The game's lifecycle phase; `Teleporting` is the two-phase blast
/// animation gating a teleport's detonation.
#[derive(Debug, Copy, Clone, PartialEq, Eq, Structural)]
pub enum Status {
    Active,
    Paused,
    Raising(usize),
    Lowering(usize),
    Menu(u32),
    Teleporting(usize, usize),
}

/// What a filled cell holds: permanent wreckage or a live robot.
#[derive(Debug, Copy, Clone, PartialEq, Eq, Structural)]
pub enum CellData {
    ScrapHeap,
    Robot,
}

/// The robot game's whole state: grid, player and robot positions, teleport
/// stock, score, buffered input and best-score table.
pub struct Robots {
    pub config: Config,
    pub status: Status,
    pub anim_tick: u32,
    pub position: (usize, usize),
    pub movement_tick: u32,
    pub input: InputState,
    pub board: Imprint<CellData>,
    pub robots: Vec<(usize, usize)>,
    pub teleports: u32,
    pub points: u32,
    pub score_table: ScoreTable,
    pub speed: u32,
    pub save_pending: bool,
}

/// One greedy step from `f` toward `t`, independently per axis.
pub open spec fn spec_towards(f: (usize, usize), t: (usize, usize)) -> (usize, usize) {
    (
        (if f.0 < t.0 {
            f.0 + 1
        } else if f.0 > t.0 {
            f.0 - 1
        } else {
            f.0 as int
        }) as usize,
        (if f.1 < t.1 {
            f.1 + 1
        } else if f.1 > t.1 {
            f.1 - 1
        } else {
            f.1 as int
        }) as usize,
    )
}

/// One greedy step toward `t` (see `spec_towards`); stays in bounds.
pub fn towards(f: (usize, usize), t: (usize, usize)) -> (r: (usize, usize))
    requires
        f.0 < WIDTH,
        f.1 < HEIGHT,
        t.0 < WIDTH,
        t.1 < HEIGHT,
    ensures
        r == spec_towards(f, t),
        r.0 < WIDTH,
        r.1 < HEIGHT,
{
    let x = if f.0 < t.0 {
        f.0 + 1
    } else if f.0 > t.0 {
        f.0 - 1
    } else {
        f.0
    };
    let y = if f.1 < t.1 {
        f.1 + 1
    } else if f.1 > t.1 {
        f.1 - 1
    } else {
        f.1
    };
    (x, y)
}

/// An in-bounds cell on the board's border, where fresh robots appear.
pub open spec fn border_spot(p: (usize, usize)) -> bool {
    p.0 < WIDTH && p.1 < HEIGHT && (p.0 == 0 || p.0 == WIDTH - 1 || p.1 == 0 || p.1 == HEIGHT - 1)
}

/// `q` is a cell the teleport may land on: empty and away from the player.
pub open spec fn tele_free(board: Imprint<CellData>, avoid: (usize, usize), q: (usize, usize)) -> bool {
    q.0 < WIDTH && q.1 < HEIGHT && board.at(q.0 as int, q.1 as int) is Empty && q != avoid
}

/// What every outcome of the teleport-destination search satisfies: in
/// bounds, and genuinely free whenever any free cell exists.
pub open spec fn tele_spot_ok(
    board: Imprint<CellData>,
    avoid: (usize, usize),
    p: (usize, usize),
) -> bool {
    &&& p.0 < WIDTH
    &&& p.1 < HEIGHT
    &&& (exists|q: (usize, usize)| #[trigger] tele_free(board, avoid, q)) ==> tele_free(
        board,
        avoid,
        p,
    )
}

/// The robots' new positions: each one greedy step toward the player.
pub open spec fn moved_seq(rs: Seq<(usize, usize)>, player: (usize, usize)) -> Seq<(usize, usize)> {
    rs.map_values(|p: (usize, usize)| spec_towards(p, player))
}

/// The board cell at `(x, y)` after every robot is lifted off the grid.
pub open spec fn cleared_at(pre: Robots, x: int, y: int) -> Cell<CellData> {
    if exists|i: int|
        0 <= i < pre.robots@.len() && (#[trigger] pre.robots@[i]).0 == x && pre.robots@[i].1 == y {
        Cell::Empty
    } else {
        pre.board.at(x, y)
    }
}

/// How many of the first `n` moved robots arrive at `(x, y)`.
pub open spec fn arrivals(moved: Seq<(usize, usize)>, x: int, y: int, n: int) -> int
    decreases n,
{
    if n <= 0 {
        0
    } else {
        arrivals(moved, x, y, n - 1) + if moved[n - 1].0 == x && moved[n - 1].1 == y {
            1int
        } else {
            0int
        }
    }
}

/// What sequentially dropping `k` robots onto a cell that held `c0` leaves
/// behind: a lone robot on a free cell stays a robot, anything else that is
/// hit becomes wreckage.
pub open spec fn place_result(c0: Cell<CellData>, k: int) -> Cell<CellData> {
    if k <= 0 {
        c0
    } else if c0 is Empty {
        if k == 1 {
            Cell::Filled(CellData::Robot)
        } else {
            Cell::Filled(CellData::ScrapHeap)
        }
    } else {
        Cell::Filled(CellData::ScrapHeap)
    }
}

/// Placing robot `i` converts a live robot to wreckage: its cell was free
/// with exactly one earlier arrival, or (stale) already held a robot.
pub open spec fn conv_at(pre: Robots, moved: Seq<(usize, usize)>, i: int) -> bool {
    let c = moved[i];
    let c0 = cleared_at(pre, c.0 as int, c.1 as int);
    let k = arrivals(moved, c.0 as int, c.1 as int, i);
    (c0 is Empty && k == 1) || (c0 == Cell::Filled(CellData::Robot) && k == 0)
}

/// How many robot-to-wreckage conversions the first `n` placements make:
/// one per wreckage cell newly created.
pub open spec fn conv_count(pre: Robots, moved: Seq<(usize, usize)>, n: int) -> int
    decreases n,
{
    if n <= 0 {
        0
    } else {
        conv_count(pre, moved, n - 1) + if conv_at(pre, moved, n - 1) {
            1int
        } else {
            0int
        }
    }
}

/// The moved robots that survive the placement: those whose cell ends as a
/// live robot, in order.
pub open spec fn survivors(pre: Robots, moved: Seq<(usize, usize)>, n: int) -> Seq<(usize, usize)>
    decreases n,
{
    if n <= 0 {
        Seq::empty()
    } else {
        survivors(pre, moved, n - 1) + if place_result(
            cleared_at(pre, moved[n - 1].0 as int, moved[n - 1].1 as int),
            arrivals(moved, moved[n - 1].0 as int, moved[n - 1].1 as int, moved.len() as int),
        ) == Cell::Filled(CellData::Robot) {
            seq![moved[n - 1]]
        } else {
            Seq::empty()
        }
    }
}

impl Robots {
    /// Structural soundness: dimensions, counter ranges, every tracked
    /// position on the board, and the robot pack within its cap.
    pub open spec fn wf(self) -> bool {
        &&& self.board.wf()
        &&& self.board.spec_width() == WIDTH
        &&& self.board.spec_height() == HEIGHT
        &&& self.score_table.wf()
        &&& self.score_table.spec_levels() == MAX_LEVEL
        &&& self.score_table.spec_variants() == MAX_ROBOTS + 1
        &&& self.config.level < MAX_LEVEL
        &&& 1 <= self.config.robots <= MAX_ROBOTS
        &&& 1 <= self.speed <= MAX_LEVEL
        &&& self.movement_tick < MAX_LEVEL
        &&& self.anim_tick < 8
        &&& self.position.0 < WIDTH && self.position.1 < HEIGHT
        &&& self.robots@.len() <= MAX_ROBOTS
        &&& forall|i: int|
            0 <= i < self.robots@.len() ==> (#[trigger] self.robots@[i]).0 < WIDTH
                && self.robots@[i].1 < HEIGHT
        &&& self.teleports <= START_TELEPORTS
        &&& match self.status {
            Status::Raising(f) => f <= HEIGHT,
            Status::Lowering(f) => f <= HEIGHT,
            Status::Menu(f) => f < 70,
            Status::Teleporting(px, py) => px < WIDTH && py < HEIGHT,
            _ => true,
        }
    }
}

/// One ambient robot step (see the placement machinery above): every robot
/// moves one greedy step toward the player; collisions become wreckage and
/// score one level-scaled point per wreckage cell created; robots standing
/// on wreckage leave the pack; a player sharing a cell with anything dies
/// (`Raising(0)`); and a fresh robot spawns on the border while the pack is
/// below its configured size.
pub open spec fn advance_rel(pre: Robots, post: Robots) -> bool {
    let moved = moved_seq(pre.robots@, pre.position);
    let n = moved.len() as int;
    let surv = survivors(pre, moved, n);
    let respawn = surv.len() < pre.config.robots;
    exists|spawn: (usize, usize)|
        #![trigger border_spot(spawn)]
        {
            &&& (respawn ==> border_spot(spawn))
            &&& post.robots@ == (if respawn {
                surv + seq![spawn]
            } else {
                surv
            })
            &&& forall|x: int, y: int|
                0 <= x < WIDTH && 0 <= y < HEIGHT ==> #[trigger] post.board.at(x, y) == {
                    let placed = place_result(cleared_at(pre, x, y), arrivals(moved, x, y, n));
                    if respawn && x == spawn.0 && y == spawn.1 {
                        if placed is Empty {
                            Cell::Filled(CellData::Robot)
                        } else {
                            Cell::Filled(CellData::ScrapHeap)
                        }
                    } else {
                        placed
                    }
                }
            &&& post.board.wf() && post.board.spec_width() == WIDTH && post.board.spec_height()
                == HEIGHT
            &&& post.points == sat_add32(
                pre.points,
                (conv_count(pre, moved, n) * ((MAX_LEVEL - pre.speed + 1) as int)) as u32,
            )
            &&& post.status == (if !(place_result(
                cleared_at(pre, pre.position.0 as int, pre.position.1 as int),
                arrivals(moved, pre.position.0 as int, pre.position.1 as int, n),
            ) is Empty) {
                Status::Raising(0)
            } else {
                pre.status
            })
            &&& post.position == pre.position
            &&& post.config == pre.config
            &&& post.speed == pre.speed
            &&& post.movement_tick == pre.movement_tick
            &&& post.anim_tick == pre.anim_tick
            &&& post.teleports == pre.teleports
            &&& post.input == pre.input
            &&& post.score_table == pre.score_table
            &&& post.save_pending == pre.save_pending
        }
}

/// Arrival counts over a prefix ignore later entries.
proof fn lemma_arrivals_prefix(s: Seq<(usize, usize)>, p: (usize, usize), x: int, y: int, m: int)
    requires
        0 <= m <= s.len(),
    ensures
        arrivals(s.push(p), x, y, m) == arrivals(s, x, y, m),
    decreases m,
{
    if m > 0 {
        lemma_arrivals_prefix(s, p, x, y, m - 1);
        assert(s.push(p)[m - 1] == s[m - 1]);
    }
}

/// Arrival counts never go negative.
proof fn lemma_arrivals_nonneg(moved: Seq<(usize, usize)>, x: int, y: int, n: int)
    ensures
        arrivals(moved, x, y, n) >= 0,
    decreases n,
{
    if n > 0 {
        lemma_arrivals_nonneg(moved, x, y, n - 1);
    }
}

/// Arrival counts grow with the prefix length.
proof fn lemma_arrivals_mono(moved: Seq<(usize, usize)>, x: int, y: int, m: int, n: int)
    requires
        m <= n,
    ensures
        arrivals(moved, x, y, m) <= arrivals(moved, x, y, n),
    decreases n - m,
{
    if m < n {
        lemma_arrivals_mono(moved, x, y, m, n - 1);
    }
}

/// A robot is among the arrivals at its own cell.
proof fn lemma_arrivals_self(moved: Seq<(usize, usize)>, i: int, n: int)
    requires
        0 <= i < n <= moved.len(),
    ensures
        arrivals(moved, moved[i].0 as int, moved[i].1 as int, n) >= 1,
    decreases n,
{
    lemma_arrivals_nonneg(moved, moved[i].0 as int, moved[i].1 as int, i);
    lemma_arrivals_mono(moved, moved[i].0 as int, moved[i].1 as int, i + 1, n);
}

/// Live robots in one column stretch of the board.
pub open spec fn robots_in_col(b: Imprint<CellData>, x: int, y0: int, y1: int) -> int
    decreases (if y0 > y1 {
        0int
    } else {
        y1 - y0 + 1
    }),
{
    if y0 > y1 {
        0
    } else {
        robots_in_col(b, x, y0, y1 - 1) + if b.at(x, y1) == Cell::Filled(CellData::Robot) {
            1int
        } else {
            0int
        }
    }
}

/// Live robots in a rectangle of the board.
pub open spec fn robots_in_rect(b: Imprint<CellData>, x0: int, x1: int, y0: int, y1: int) -> int
    decreases (if x0 > x1 {
        0int
    } else {
        x1 - x0 + 1
    }),
{
    if x0 > x1 {
        0
    } else {
        robots_in_rect(b, x0, x1 - 1, y0, y1) + robots_in_col(b, x1, y0, y1)
    }
}

proof fn lemma_col_bound(b: Imprint<CellData>, x: int, y0: int, y1: int)
    ensures
        0 <= robots_in_col(b, x, y0, y1),
        y0 <= y1 ==> robots_in_col(b, x, y0, y1) <= y1 - y0 + 1,
    decreases (if y0 > y1 {
        0int
    } else {
        y1 - y0 + 1
    }),
{
    if y0 <= y1 {
        lemma_col_bound(b, x, y0, y1 - 1);
    }
}

proof fn lemma_rect_bound(b: Imprint<CellData>, x0: int, x1: int, y0: int, y1: int)
    requires
        y0 <= y1,
    ensures
        0 <= robots_in_rect(b, x0, x1, y0, y1),
        robots_in_rect(b, x0, x1, y0, y1) <= (if x0 > x1 {
            0int
        } else {
            (x1 - x0 + 1) * (y1 - y0 + 1)
        }),
    decreases (if x0 > x1 {
        0int
    } else {
        x1 - x0 + 1
    }),
{
    if x0 <= x1 {
        lemma_rect_bound(b, x0, x1 - 1, y0, y1);
        lemma_col_bound(b, x1, y0, y1);
        assert((x1 - x0 + 1) * (y1 - y0 + 1) == (x1 - 1 - x0 + 1) * (y1 - y0 + 1) + (y1 - y0 + 1))
            by (nonlinear_arith);
    }
}

/// The robots that stay after a blast: those not standing on wreckage, in
/// order.
pub open spec fn kept_seq(rs: Seq<(usize, usize)>, b: Imprint<CellData>, n: int) -> Seq<
    (usize, usize),
>
    decreases n,
{
    if n <= 0 {
        Seq::empty()
    } else {
        kept_seq(rs, b, n - 1) + if b.at(rs[n - 1].0 as int, rs[n - 1].1 as int) == Cell::Filled(
            CellData::ScrapHeap,
        ) {
            Seq::empty()
        } else {
            seq![rs[n - 1]]
        }
    }
}

/// A blast over a rectangle: every occupied cell in it becomes wreckage,
/// each live robot crushed scores one level-scaled point, and robots left
/// standing on wreckage leave the pack.
pub open spec fn obliterate_rel(
    pre: Robots,
    post: Robots,
    x0: int,
    y0: int,
    x1: int,
    y1: int,
) -> bool {
    &&& forall|x: int, y: int|
        0 <= x < WIDTH && 0 <= y < HEIGHT ==> #[trigger] post.board.at(x, y) == (if x0 <= x <= x1
            && y0 <= y <= y1 && !(pre.board.at(x, y) is Empty) {
            Cell::Filled(CellData::ScrapHeap)
        } else {
            pre.board.at(x, y)
        })
    &&& post.board.wf() && post.board.spec_width() == WIDTH && post.board.spec_height() == HEIGHT
    &&& post.points == sat_add32(
        pre.points,
        (robots_in_rect(pre.board, x0, x1, y0, y1) * ((MAX_LEVEL - pre.speed + 1) as int)) as u32,
    )
    &&& post.robots@ == kept_seq(pre.robots@, post.board, pre.robots@.len() as int)
    &&& post.position == pre.position
    &&& post.status == pre.status
    &&& post.config == pre.config
    &&& post.speed == pre.speed
    &&& post.movement_tick == pre.movement_tick
    &&& post.anim_tick == pre.anim_tick
    &&& post.teleports == pre.teleports
    &&& post.input == pre.input
    &&& post.score_table == pre.score_table
    &&& post.save_pending == pre.save_pending
}

impl Robots {
    /// Drop one robot onto the board: a free cell takes it live, an occupied
    /// cell turns to wreckage.
    fn place_robot(&mut self, p: (usize, usize))
        requires
            old(self).board.wf(),
            old(self).board.spec_width() == WIDTH,
            old(self).board.spec_height() == HEIGHT,
            p.0 < WIDTH,
            p.1 < HEIGHT,
        ensures
            *final(self) == (Robots { board: final(self).board, ..*old(self) }),
            final(self).board.wf(),
            final(self).board.spec_width() == WIDTH,
            final(self).board.spec_height() == HEIGHT,
            final(self).board.at(p.0 as int, p.1 as int) == (if (old(self).board.at(
                p.0 as int,
                p.1 as int,
            ) is Empty) {
                Cell::Filled(CellData::Robot)
            } else {
                Cell::<CellData>::Filled(CellData::ScrapHeap)
            }),
            forall|x: int, y: int|
                0 <= x < WIDTH && 0 <= y < HEIGHT && !(x == p.0 && y == p.1)
                    ==> #[trigger] final(self).board.at(x, y) == old(self).board.at(x, y),
    {
        let c = self.board.get(p.0, p.1);
        if c.is_empty() {
            self.board.set(p.0, p.1, Cell::Filled(CellData::Robot));
        } else {
            self.board.set(p.0, p.1, Cell::Filled(CellData::ScrapHeap));
        }
    }

    /// A random border cell, where a fresh robot appears.
    fn random_border_spot(&self) -> (r: (usize, usize))
        ensures
            border_spot(r),
    {
        let xc = (crate::rng::random_u32() as usize) % WIDTH;
        let yc = (crate::rng::random_u32() as usize) % HEIGHT;
        let b = crate::rng::random_u32() % 4;
        match b {
            0 => (xc, 0),
            1 => (xc, HEIGHT - 1),
            2 => (0, yc),
            _ => (WIDTH - 1, yc),
        }
    }

    /// A spot for a teleport landing: a random probe, falling back to a
    /// scan for a free cell starting at the probe; only when the board has
    /// no free cell at all does an occupied probe come back.
    #[verifier::loop_isolation(false)]
    #[verifier::rlimit(100)]
    pub fn random_free_spot(&self) -> (r: (usize, usize))
        requires
            self.board.wf(),
            self.board.spec_width() == WIDTH,
            self.board.spec_height() == HEIGHT,
        ensures
            tele_spot_ok(self.board, self.position, r),
    {
        let x = (crate::rng::random_u32() as usize) % WIDTH;
        let y = (crate::rng::random_u32() as usize) % HEIGHT;
        let avoid = self.position;
        let probe_free = self.board.get(x, y).is_empty() && !(x == avoid.0 && y == avoid.1);
        if probe_free {
            return (x, y);
        }
        let mut xo: usize = 0;
        while xo < WIDTH
            invariant
                xo <= WIDTH,
                forall|a: int, b: int|
                    0 <= a < WIDTH && 0 <= b < HEIGHT && ((a - x + WIDTH) % (WIDTH as int) < xo)
                        ==> (!(#[trigger] self.board.at(a, b) is Empty) || (a == avoid.0 && b
                        == avoid.1)),
            decreases WIDTH - xo,
        {
            let mut yo: usize = 0;
            while yo < HEIGHT
                invariant
                    yo <= HEIGHT,
                    xo < WIDTH,
                    forall|a: int, b: int|
                        0 <= a < WIDTH && 0 <= b < HEIGHT && ((a - x + WIDTH) % (WIDTH as int)
                            < xo) ==> (!(#[trigger] self.board.at(a, b) is Empty) || (a == avoid.0
                            && b == avoid.1)),
                    forall|b: int|
                        0 <= b < HEIGHT && ((b - y + HEIGHT) % (HEIGHT as int) < yo) ==> (!(
                        #[trigger] self.board.at(
                            ((x as int) + (xo as int)) % (WIDTH as int),
                            b,
                        ) is Empty) || (((x as int) + (xo as int)) % (WIDTH as int) == avoid.0 && b
                            == avoid.1)),
                decreases HEIGHT - yo,
            {
                let nx = (x + xo) % WIDTH;
                let ny = (y + yo) % HEIGHT;
                let ok = self.board.get(nx, ny).is_empty() && !(nx == avoid.0 && ny == avoid.1);
                if ok {
                    return (nx, ny);
                }
                proof {
                    assert((ny - y + HEIGHT) % (HEIGHT as int) == yo);
                }
                yo = yo + 1;
            }
            proof {
                assert forall|a: int, b: int|
                    0 <= a < WIDTH && 0 <= b < HEIGHT && ((a - x + WIDTH) % (WIDTH as int) < xo
                        + 1) implies (!(#[trigger] self.board.at(a, b) is Empty) || (a == avoid.0
                    && b == avoid.1)) by {
                    if (a - x + WIDTH) % (WIDTH as int) == xo {
                        assert(a == ((x as int) + (xo as int)) % (WIDTH as int));
                        assert((b - y + HEIGHT) % (HEIGHT as int) < HEIGHT);
                    }
                }
            }
            xo = xo + 1;
        }
        proof {
            assert forall|q: (usize, usize)| !(#[trigger] tele_free(self.board, avoid, q)) by {
                if q.0 < WIDTH && q.1 < HEIGHT {
                    assert((q.0 - x + WIDTH) % (WIDTH as int) < WIDTH);
                }
            }
        }
        (x, y)
    }

    /// One ambient robot step (see `advance_rel`).
    #[verifier::rlimit(100)]
    pub fn advance(&mut self)
        requires
            old(self).wf(),
        ensures
            final(self).wf(),
            advance_rel(*old(self), *final(self)),
    {
        let ghost pre = *old(self);
        let n = self.robots.len();
        // lift every robot off the grid
        let mut i: usize = 0;
        while i < n
            invariant
                i <= n,
                n == self.robots@.len(),
                pre.wf(),
                *self == (Robots { board: self.board, ..pre }),
                self.board.wf(),
                self.board.spec_width() == WIDTH,
                self.board.spec_height() == HEIGHT,
                forall|x: int, y: int|
                    0 <= x < WIDTH && 0 <= y < HEIGHT ==> #[trigger] self.board.at(x, y) == (
                    if exists|j: int|
                        0 <= j < i && (#[trigger] pre.robots@[j]).0 == x && pre.robots@[j].1 == y {
                        Cell::<CellData>::Empty
                    } else {
                        pre.board.at(x, y)
                    }),
            decreases n - i,
        {
            let p = self.robots[i];
            self.board.set(p.0, p.1, Cell::Empty);
            proof {
                assert forall|x: int, y: int|
                    0 <= x < WIDTH && 0 <= y < HEIGHT implies #[trigger] self.board.at(x, y) == (
                if exists|j: int|
                    0 <= j < i + 1 && (#[trigger] pre.robots@[j]).0 == x && pre.robots@[j].1
                        == y {
                    Cell::<CellData>::Empty
                } else {
                    pre.board.at(x, y)
                }) by {
                    if x == p.0 && y == p.1 {
                        assert(pre.robots@[i as int].0 == x && pre.robots@[i as int].1 == y);
                    }
                }
            }
            i = i + 1;
        }
        proof {
            assert forall|x: int, y: int|
                0 <= x < WIDTH && 0 <= y < HEIGHT implies #[trigger] self.board.at(x, y)
                == cleared_at(pre, x, y) by {}
        }
        // march every robot one step toward the player
        let pos = self.position;
        let mut i: usize = 0;
        while i < n
            invariant
                i <= n,
                n == self.robots@.len(),
                pre.wf(),
                pos == pre.position,
                n == pre.robots@.len(),
                *self == (Robots { board: self.board, robots: self.robots, ..pre }),
                self.board.wf(),
                self.board.spec_width() == WIDTH,
                self.board.spec_height() == HEIGHT,
                forall|x: int, y: int|
                    0 <= x < WIDTH && 0 <= y < HEIGHT ==> #[trigger] self.board.at(x, y)
                        == cleared_at(pre, x, y),
                forall|j: int|
                    0 <= j < n ==> (#[trigger] pre.robots@[j]).0 < WIDTH && pre.robots@[j].1
                        < HEIGHT,
                forall|j: int|
                    0 <= j < i ==> #[trigger] self.robots@[j] == spec_towards(
                        pre.robots@[j],
                        pre.position,
                    ),
                forall|j: int| i <= j < n ==> #[trigger] self.robots@[j] == pre.robots@[j],
            decreases n - i,
        {
            let p = self.robots[i];
            let q = towards(p, pos);
            self.robots[i] = q;
            i = i + 1;
        }
        let ghost moved = moved_seq(pre.robots@, pre.position);
        proof {
            assert(self.robots@ =~= moved);
        }
        // drop the robots back on, turning collisions into wreckage
        let mut conv: u32 = 0;
        let mut i: usize = 0;
        while i < n
            invariant
                i <= n,
                n == self.robots@.len(),
                n <= MAX_ROBOTS,
                pre.wf(),
                self.robots@ == moved,
                moved.len() == n,
                forall|j: int|
                    0 <= j < n ==> (#[trigger] moved[j]).0 < WIDTH && moved[j].1 < HEIGHT,
                *self == (Robots { board: self.board, robots: self.robots, ..pre }),
                self.board.wf(),
                self.board.spec_width() == WIDTH,
                self.board.spec_height() == HEIGHT,
                conv == conv_count(pre, moved, i as int),
                conv <= i,
                forall|x: int, y: int|
                    0 <= x < WIDTH && 0 <= y < HEIGHT ==> #[trigger] self.board.at(x, y)
                        == place_result(cleared_at(pre, x, y), arrivals(moved, x, y, i as int)),
            decreases n - i,
        {
            let p = self.robots[i];
            let c = self.board.get(p.0, p.1);
            proof {
                lemma_arrivals_nonneg(moved, p.0 as int, p.1 as int, i as int);
            }
            match c {
                Cell::Empty => {
                    self.board.set(p.0, p.1, Cell::Filled(CellData::Robot));
                },
                Cell::Filled(CellData::Robot) => {
                    self.board.set(p.0, p.1, Cell::Filled(CellData::ScrapHeap));
                    conv = conv + 1;
                },
                Cell::Filled(CellData::ScrapHeap) => {},
            }
            proof {
                assert forall|x: int, y: int|
                    0 <= x < WIDTH && 0 <= y < HEIGHT implies #[trigger] self.board.at(x, y)
                    == place_result(cleared_at(pre, x, y), arrivals(moved, x, y, i + 1)) by {
                    lemma_arrivals_nonneg(moved, x, y, i as int);
                }
            }
            i = i + 1;
        }
        let level_scale = MAX_LEVEL - self.speed + 1;
        proof {
            assert((conv as int) * (level_scale as int) <= 400) by (nonlinear_arith)
                requires
                    conv <= 20,
                    level_scale <= 20,
            ;
        }
        self.points = sat_add(self.points, conv * level_scale);
        // robots standing on wreckage leave the pack
        let mut kept: Vec<(usize, usize)> = Vec::new();
        let mut i: usize = 0;
        while i < n
            invariant
                i <= n,
                n == self.robots@.len(),
                pre.wf(),
                self.robots@ == moved,
                moved.len() == n,
                forall|j: int|
                    0 <= j < n ==> (#[trigger] moved[j]).0 < WIDTH && moved[j].1 < HEIGHT,
                self.board.wf(),
                self.board.spec_width() == WIDTH,
                self.board.spec_height() == HEIGHT,
                forall|x: int, y: int|
                    0 <= x < WIDTH && 0 <= y < HEIGHT ==> #[trigger] self.board.at(x, y)
                        == place_result(cleared_at(pre, x, y), arrivals(moved, x, y, n as int)),
                kept@ == survivors(pre, moved, i as int),
                kept@.len() <= i,
                forall|j: int|
                    0 <= j < kept@.len() ==> (#[trigger] kept@[j]).0 < WIDTH && kept@[j].1
                        < HEIGHT,
            decreases n - i,
        {
            let p = self.robots[i];
            let c = self.board.get(p.0, p.1);
            let keepit = match c {
                Cell::Filled(CellData::ScrapHeap) => false,
                _ => true,
            };
            proof {
                lemma_arrivals_self(moved, i as int, n as int);
            }
            if keepit {
                kept.push(p);
            }
            proof {
                assert(kept@ =~= survivors(pre, moved, i + 1));
            }
            i = i + 1;
        }
        self.robots = kept;
        // the player dies on an occupied cell
        let pp = self.position;
        let pc = self.board.get(pp.0, pp.1);
        if !pc.is_empty() {
            self.status = Status::Raising(0);
        }
        // refill the pack from the border
        let ghost spawn_w: (usize, usize) = (0, 0);
        if self.robots.len() < self.config.robots as usize {
            let p = self.random_border_spot();
            proof {
                spawn_w = p;
            }
            self.robots.push(p);
            self.place_robot(p);
        }
        proof {
            let _m = border_spot(spawn_w);
            let nn = moved.len() as int;
            let surv = survivors(pre, moved, nn);
            let respawn = surv.len() < pre.config.robots;
            if respawn {
                assert(border_spot(spawn_w));
                assert(self.robots@ =~= surv + seq![spawn_w]);
            } else {
                assert(self.robots@ =~= surv);
            }
            assert forall|x: int, y: int|
                0 <= x < WIDTH && 0 <= y < HEIGHT implies #[trigger] self.board.at(x, y) == {
                let placed = place_result(cleared_at(pre, x, y), arrivals(moved, x, y, nn));
                if respawn && x == spawn_w.0 && y == spawn_w.1 {
                    if placed is Empty {
                        Cell::Filled(CellData::Robot)
                    } else {
                        Cell::Filled(CellData::ScrapHeap)
                    }
                } else {
                    placed
                }
            } by {}
            assert(advance_rel(pre, *final(self)));
        }
    }
}

/// A well-formed list of border spawn points.
pub open spec fn spawn_list_ok(s: Seq<(usize, usize)>) -> bool {
    forall|i: int| 0 <= i < s.len() ==> border_spot(#[trigger] s[i])
}

/// The whole-run reset: the ended run's score is folded into the table
/// (flagging a store rewrite on improvement), the board restarts empty with
/// the configured number of robots dropped on random border cells, and the
/// player returns to the center with a full teleport stock. The lifecycle
/// phase is the caller's business.
pub open spec fn new_game_core(pre: Robots, post: Robots) -> bool {
    &&& table_bumped(
        pre.score_table,
        post.score_table,
        pre.config.level as int,
        pre.config.robots as int,
        pre.points,
    )
    &&& post.save_pending == (pre.save_pending || pre.points > pre.score_table.score_at(
        pre.config.level as int,
        pre.config.robots as int,
    ))
    &&& post.position == ((WIDTH / 2) as usize, (HEIGHT / 2) as usize)
    &&& post.points == 0
    &&& post.teleports == START_TELEPORTS
    &&& post.speed == MAX_LEVEL - pre.config.level
    &&& exists|spawns: Seq<(usize, usize)>|
        #![trigger spawn_list_ok(spawns)]
        {
            &&& spawn_list_ok(spawns)
            &&& spawns.len() == pre.config.robots
            &&& post.robots@ == spawns
            &&& forall|x: int, y: int|
                0 <= x < WIDTH && 0 <= y < HEIGHT ==> #[trigger] post.board.at(x, y)
                    == place_result(
                    Cell::Empty,
                    arrivals(spawns, x, y, spawns.len() as int),
                )
        }
    &&& post.board.wf() && post.board.spec_width() == WIDTH && post.board.spec_height() == HEIGHT
    &&& post.config == pre.config
    &&& post.input == pre.input
    &&& post.movement_tick == pre.movement_tick
    &&& post.anim_tick == pre.anim_tick
}

/// Paused: any movement or action intent resumes; escape gives the run up.
pub open spec fn paused_step(pre: Robots, post: Robots) -> bool {
    if pre.input.drop || pre.input.button_a || pre.input.button_b || pre.input.left
        || pre.input.right || pre.input.down || pre.input.up {
        post == (Robots { status: Status::Active, ..pre })
    } else if pre.input.escape {
        post == (Robots {
            status: Status::Raising(0),
            input: InputState { escape: false, ..pre.input },
            ..pre
        })
    } else {
        post == pre
    }
}

/// Raising: the curtain runs up to the full height, where the whole-run
/// reset happens and the lowering animation starts.
pub open spec fn raising_step(pre: Robots, post: Robots, f: usize) -> bool {
    if f == HEIGHT {
        new_game_core(pre, post) && post.status == Status::Lowering(HEIGHT)
    } else {
        post == (Robots { status: Status::Raising((f + 1) as usize), ..pre })
    }
}

/// Lowering: the curtain runs back down to zero, then the menu takes over.
pub open spec fn lowering_step(pre: Robots, post: Robots, f: usize) -> bool {
    if f == 0 {
        post == (Robots { status: Status::Menu(0), ..pre })
    } else {
        post == (Robots { status: Status::Lowering((f - 1) as usize), ..pre })
    }
}

/// The menu's pack-size increase: one more robot (capped) and a reset.
pub open spec fn menu_pack_right(pre: Robots, post: Robots) -> bool {
    if pre.input.right {
        let cleared = Robots { input: InputState { right: false, ..pre.input }, ..pre };
        if pre.config.robots < MAX_ROBOTS {
            new_game_core(
                Robots {
                    config: Config {
                        robots: (pre.config.robots + 1) as u32,
                        level: pre.config.level,
                    },
                    ..cleared
                },
                post,
            ) && post.status == pre.status
        } else {
            post == cleared
        }
    } else {
        post == pre
    }
}

/// The menu's pack-size decrease: one robot fewer (at least one) and a
/// reset.
pub open spec fn menu_pack_left(pre: Robots, post: Robots) -> bool {
    if pre.input.left {
        let cleared = Robots { input: InputState { left: false, ..pre.input }, ..pre };
        if pre.config.robots > 1 {
            new_game_core(
                Robots {
                    config: Config {
                        robots: (pre.config.robots - 1) as u32,
                        level: pre.config.level,
                    },
                    ..cleared
                },
                post,
            ) && post.status == pre.status
        } else {
            post == cleared
        }
    } else {
        post == pre
    }
}

/// The menu's remaining intents, in order: drop starts a run, up raises the
/// level, down lowers it; the ambient speed follows the level.
pub open spec fn menu_tail(g: Robots) -> Robots {
    let g1 = if g.input.drop {
        Robots { status: Status::Active, input: InputState { drop: false, ..g.input }, ..g }
    } else {
        g
    };
    let g2 = if g1.input.up {
        let gu = Robots { input: InputState { up: false, ..g1.input }, ..g1 };
        if g1.config.level < MAX_LEVEL - 1 {
            Robots {
                config: Config { robots: g1.config.robots, level: (g1.config.level + 1) as u32 },
                speed: (MAX_LEVEL - (g1.config.level + 1)) as u32,
                ..gu
            }
        } else {
            gu
        }
    } else {
        g1
    };
    if g2.input.down {
        let gd = Robots { input: InputState { down: false, ..g2.input }, ..g2 };
        if g2.config.level > 0 {
            Robots {
                config: Config { robots: g2.config.robots, level: (g2.config.level - 1) as u32 },
                speed: (MAX_LEVEL - (g2.config.level - 1)) as u32,
                ..gd
            }
        } else {
            gd
        }
    } else {
        g2
    }
}

/// Menu: the cosmetic tick advances modulo 70; escape, next and prev leave
/// the game (clearing escape); otherwise the pack-size and difficulty
/// intents apply in order.
pub open spec fn menu_step(pre: Robots, post: Robots, f: u32) -> bool {
    let pre1 = Robots { status: Status::Menu((((f as int) + 1) % 70) as u32), ..pre };
    if pre.input.escape || pre.input.next || pre.input.prev {
        post == (Robots { input: InputState { escape: false, ..pre.input }, ..pre1 })
    } else {
        exists|m1: Robots, m2: Robots|
            #![trigger menu_pack_right(pre1, m1), menu_pack_left(m1, m2)]
            menu_pack_right(pre1, m1) && menu_pack_left(m1, m2) && post == menu_tail(m2)
    }
}

/// The four directional intents, in order: each consumed intent steps the
/// player one cell toward the matching board edge (clamped), and stepping
/// onto an occupied cell is immediately fatal.
pub open spec fn dpad(g: Robots) -> Robots {
    let g1 = if g.input.left {
        let p1 = spec_towards(g.position, (0, g.position.1));
        Robots {
            position: p1,
            status: if !(g.board.at(p1.0 as int, p1.1 as int) is Empty) {
                Status::Raising(0)
            } else {
                g.status
            },
            input: InputState { left: false, ..g.input },
            ..g
        }
    } else {
        g
    };
    let g2 = if g1.input.right {
        let p1 = spec_towards(g1.position, ((WIDTH - 1) as usize, g1.position.1));
        Robots {
            position: p1,
            status: if !(g1.board.at(p1.0 as int, p1.1 as int) is Empty) {
                Status::Raising(0)
            } else {
                g1.status
            },
            input: InputState { right: false, ..g1.input },
            ..g1
        }
    } else {
        g1
    };
    let g3 = if g2.input.up {
        let p1 = spec_towards(g2.position, (g2.position.0, 0));
        Robots {
            position: p1,
            status: if !(g2.board.at(p1.0 as int, p1.1 as int) is Empty) {
                Status::Raising(0)
            } else {
                g2.status
            },
            input: InputState { up: false, ..g2.input },
            ..g2
        }
    } else {
        g2
    };
    if g3.input.down {
        let p1 = spec_towards(g3.position, (g3.position.0, (HEIGHT - 1) as usize));
        Robots {
            position: p1,
            status: if !(g3.board.at(p1.0 as int, p1.1 as int) is Empty) {
                Status::Raising(0)
            } else {
                g3.status
            },
            input: InputState { down: false, ..g3.input },
            ..g3
        }
    } else {
        g3
    }
}

/// The teleport intent: with a charge left, either action button (only the
/// first is consumed) spends one, picks a random free destination and
/// starts the two-phase blast animation.
pub open spec fn teleport_rel(pre: Robots, post: Robots) -> bool {
    if (pre.input.button_a || pre.input.button_b) && pre.teleports > 0 {
        exists|tp: (usize, usize)|
            #![trigger tele_spot_ok(pre.board, pre.position, tp)]
            tele_spot_ok(pre.board, pre.position, tp) && post == (Robots {
                teleports: (pre.teleports - 1) as u32,
                status: Status::Teleporting(tp.0, tp.1),
                anim_tick: 0,
                input: InputState { button_a: false, ..pre.input },
                ..pre
            })
    } else {
        post == pre
    }
}

/// Active: escape pauses; otherwise the directional steps, the teleport
/// intent, the ambient robot step (on movement frames) and the counters
/// apply in order.
pub open spec fn active_step(pre: Robots, post: Robots) -> bool {
    if pre.input.escape {
        post == (Robots {
            status: Status::Paused,
            input: InputState { escape: false, ..pre.input },
            ..pre
        })
    } else {
        let mid1 = dpad(pre);
        exists|m2: Robots|
            #![trigger teleport_rel(mid1, m2)]
            teleport_rel(mid1, m2) && {
                let mt2 = (((m2.movement_tick as int) + 1) % (m2.speed as int)) as u32;
                let at2 = (((m2.anim_tick as int) + 1) % 4) as u32;
                &&& post.movement_tick == mt2
                &&& post.anim_tick == at2
                &&& if m2.movement_tick == 0 {
                    advance_rel(
                        m2,
                        Robots { movement_tick: m2.movement_tick, anim_tick: m2.anim_tick, ..post },
                    )
                } else {
                    post == (Robots { movement_tick: mt2, anim_tick: at2, ..m2 })
                }
            }
    }
}

/// The clipped 3 x 3 blast rectangle centered on `p`, as
/// `(x0, y0, x1, y1)`.
pub open spec fn blast_rect(p: (usize, usize)) -> (int, int, int, int) {
    (
        if p.0 == 0 {
            0int
        } else {
            p.0 - 1
        },
        if p.1 == 0 {
            0int
        } else {
            p.1 - 1
        },
        if p.0 == WIDTH - 1 {
            (WIDTH - 1) as int
        } else {
            p.0 + 1
        },
        if p.1 == HEIGHT - 1 {
            (HEIGHT - 1) as int
        } else {
            p.1 + 1
        },
    )
}

/// The teleport animation: the internal tick runs its course, then both
/// ends of the jump detonate (origin first), the player lands at the
/// destination and play resumes.
pub open spec fn teleport_step(pre: Robots, post: Robots, px: usize, py: usize) -> bool {
    if pre.anim_tick == 0 {
        let r0 = blast_rect(pre.position);
        let r1 = blast_rect((px, py));
        exists|m1: Robots|
            #![trigger obliterate_rel(pre, m1, r0.0, r0.1, r0.2, r0.3)]
            obliterate_rel(pre, m1, r0.0, r0.1, r0.2, r0.3) && obliterate_rel(
                m1,
                Robots { position: m1.position, status: m1.status, ..post },
                r1.0,
                r1.1,
                r1.2,
                r1.3,
            ) && post.position == (px, py) && post.status == Status::Active
    } else {
        post == (Robots { anim_tick: (((pre.anim_tick as int) + 1) % 8) as u32, ..pre })
    }
}

/// The whole per-frame transition, by lifecycle phase.
pub open spec fn tick_step(pre: Robots, post: Robots) -> bool {
    match pre.status {
        Status::Active => active_step(pre, post),
        Status::Paused => paused_step(pre, post),
        Status::Raising(f) => raising_step(pre, post, f),
        Status::Lowering(f) => lowering_step(pre, post, f),
        Status::Menu(f) => menu_step(pre, post, f),
        Status::Teleporting(px, py) => teleport_step(pre, post, px, py),
    }
}

impl Robots {
    /// The player dies on an occupied cell.
    fn check_safety(&mut self)
        requires
            old(self).wf(),
        ensures
            *final(self) == (Robots {
                status: if !(old(self).board.at(
                    old(self).position.0 as int,
                    old(self).position.1 as int,
                ) is Empty) {
                    Status::Raising(0)
                } else {
                    old(self).status
                },
                ..*old(self)
            }),
    {
        let p = self.position;
        if !self.board.get(p.0, p.1).is_empty() {
            self.status = Status::Raising(0);
        }
    }

    /// A blast over a clipped rectangle (see `obliterate_rel`).
    #[verifier::rlimit(100)]
    fn obliterate(&mut self, x0: usize, y0: usize, x1: usize, y1: usize)
        requires
            old(self).wf(),
            x0 <= x1 < WIDTH,
            y0 <= y1 < HEIGHT,
            x1 - x0 <= 2,
            y1 - y0 <= 2,
        ensures
            final(self).wf(),
            obliterate_rel(
                *old(self),
                *final(self),
                x0 as int,
                y0 as int,
                x1 as int,
                y1 as int,
            ),
    {
        let ghost pre = *old(self);
        let mut count: u32 = 0;
        let mut x = x0;
        while x < x1 + 1
            invariant
                pre.wf(),
                x0 <= x <= x1 + 1,
                x1 < WIDTH,
                y0 <= y1 < HEIGHT,
                x1 - x0 <= 2,
                y1 - y0 <= 2,
                *self == (Robots { board: self.board, ..pre }),
                self.board.wf(),
                self.board.spec_width() == WIDTH,
                self.board.spec_height() == HEIGHT,
                count == robots_in_rect(pre.board, x0 as int, x - 1, y0 as int, y1 as int),
                count <= 9,
                forall|a: int, b: int|
                    0 <= a < WIDTH && 0 <= b < HEIGHT ==> #[trigger] self.board.at(a, b) == (
                    if x0 <= a < x && y0 <= b <= y1 && !(pre.board.at(a, b) is Empty) {
                        Cell::Filled(CellData::ScrapHeap)
                    } else {
                        pre.board.at(a, b)
                    }),
            decreases x1 + 1 - x,
        {
            let mut y = y0;
            while y < y1 + 1
                invariant
                    pre.wf(),
                    x0 <= x <= x1,
                    y0 <= y <= y1 + 1,
                    x1 < WIDTH,
                    y0 <= y1 < HEIGHT,
                    x1 - x0 <= 2,
                    y1 - y0 <= 2,
                    *self == (Robots { board: self.board, ..pre }),
                    self.board.wf(),
                    self.board.spec_width() == WIDTH,
                    self.board.spec_height() == HEIGHT,
                    count == robots_in_rect(pre.board, x0 as int, x - 1, y0 as int, y1 as int)
                        + robots_in_col(pre.board, x as int, y0 as int, y - 1),
                    count <= 9,
                    forall|a: int, b: int|
                        0 <= a < WIDTH && 0 <= b < HEIGHT ==> #[trigger] self.board.at(a, b) == (
                        if ((x0 <= a < x && y0 <= b <= y1) || (a == x && y0 <= b < y)) && !(
                        pre.board.at(a, b) is Empty) {
                            Cell::Filled(CellData::ScrapHeap)
                        } else {
                            pre.board.at(a, b)
                        }),
                decreases y1 + 1 - y,
            {
                proof {
                    lemma_col_bound(pre.board, x as int, y0 as int, y - 1);
                    lemma_rect_bound(pre.board, x0 as int, x - 1, y0 as int, y1 as int);
                }
                let c = self.board.get(x, y);
                match c {
                    Cell::Empty => {},
                    Cell::Filled(CellData::Robot) => {
                        self.board.set(x, y, Cell::Filled(CellData::ScrapHeap));
                        count = count + 1;
                    },
                    Cell::Filled(CellData::ScrapHeap) => {},
                }
                proof {
                    lemma_rect_bound(pre.board, x0 as int, x - 1, y0 as int, y1 as int);
                    lemma_col_bound(pre.board, x as int, y0 as int, y as int);
                    assert((x - x0) * (y1 - y0 + 1) <= 6) by (nonlinear_arith)
                        requires
                            0 <= x - x0 <= 2,
                            1 <= y1 - y0 + 1 <= 3,
                    ;
                }
                y = y + 1;
            }
            x = x + 1;
        }
        let level_scale = MAX_LEVEL - self.speed + 1;
        proof {
            assert((count as int) * (level_scale as int) <= 189) by (nonlinear_arith)
                requires
                    count <= 9,
                    level_scale <= 21,
            ;
        }
        self.points = sat_add(self.points, count * level_scale);
        let n = self.robots.len();
        let mut kept: Vec<(usize, usize)> = Vec::new();
        let mut i: usize = 0;
        while i < n
            invariant
                pre.wf(),
                i <= n,
                n == self.robots@.len(),
                self.robots@ == pre.robots@,
                self.board.wf(),
                self.board.spec_width() == WIDTH,
                self.board.spec_height() == HEIGHT,
                kept@ == kept_seq(pre.robots@, self.board, i as int),
                kept@.len() <= i,
                forall|j: int|
                    0 <= j < kept@.len() ==> (#[trigger] kept@[j]).0 < WIDTH && kept@[j].1
                        < HEIGHT,
            decreases n - i,
        {
            let p = self.robots[i];
            let c = self.board.get(p.0, p.1);
            let keepit = match c {
                Cell::Filled(CellData::ScrapHeap) => false,
                _ => true,
            };
            if keepit {
                kept.push(p);
            }
            proof {
                assert(kept@ =~= kept_seq(pre.robots@, self.board, i + 1));
            }
            i = i + 1;
        }
        self.robots = kept;
    }

    /// The whole-run reset (see `new_game_core`).
    #[verifier::rlimit(100)]
    pub fn new_game(&mut self)
        requires
            old(self).wf(),
        ensures
            final(self).wf(),
            new_game_core(*old(self), *final(self)),
            final(self).status == old(self).status,
    {
        let ghost pre = *old(self);
        self.board = Imprint::empty(WIDTH, HEIGHT);
        let improved = self.score_table.update_scores(
            self.config.level as usize,
            self.config.robots as usize,
            self.points,
        );
        if improved {
            self.save_pending = true;
        }
        self.position = (WIDTH / 2, HEIGHT / 2);
        self.points = 0;
        self.teleports = START_TELEPORTS;
        self.robots = Vec::new();
        self.speed = MAX_LEVEL - self.config.level;
        let target = self.config.robots;
        let ghost entry = *self;
        let mut i: u32 = 0;
        while i < target
            invariant
                i <= target,
                target <= MAX_ROBOTS,
                self.robots@.len() == i,
                spawn_list_ok(self.robots@),
                *self == (Robots { board: self.board, robots: self.robots, ..entry }),
                self.board.wf(),
                self.board.spec_width() == WIDTH,
                self.board.spec_height() == HEIGHT,
                forall|x: int, y: int|
                    0 <= x < WIDTH && 0 <= y < HEIGHT ==> #[trigger] self.board.at(x, y)
                        == place_result(Cell::Empty, arrivals(self.robots@, x, y, i as int)),
            decreases target - i,
        {
            let ghost before = self.robots@;
            let p = self.random_border_spot();
            self.robots.push(p);
            self.place_robot(p);
            proof {
                assert forall|x: int, y: int|
                    0 <= x < WIDTH && 0 <= y < HEIGHT implies #[trigger] self.board.at(x, y)
                    == place_result(Cell::Empty, arrivals(self.robots@, x, y, i + 1)) by {
                    lemma_arrivals_prefix(before, p, x, y, i as int);
                    lemma_arrivals_nonneg(before, x, y, i as int);
                    assert(self.robots@[i as int] == p);
                }
            }
            i = i + 1;
        }
        proof {
            assert(spawn_list_ok(self.robots@));
            assert(new_game_core(pre, *final(self)));
        }
    }
}

/// What the frame tells the driver: only the menu leaves the game.
pub open spec fn tick_result_spec(pre: Robots) -> TickResult {
    match pre.status {
        Status::Menu(_) => if pre.input.escape {
            TickResult::Exit
        } else if pre.input.next {
            TickResult::NextGame
        } else if pre.input.prev {
            TickResult::PrevGame
        } else {
            TickResult::Continue
        },
        _ => TickResult::Continue,
    }
}

impl Robots {
    /// The four directional intents for one frame (see `dpad`).
    #[verifier::rlimit(100)]
    fn step_dpad(&mut self)
        requires
            old(self).wf(),
        ensures
            final(self).wf(),
            *final(self) == dpad(*old(self)),
    {
        if self.input.left {
            self.input.left = false;
            let p = towards(self.position, (0, self.position.1));
            self.position = p;
            self.check_safety();
        }
        if self.input.right {
            self.input.right = false;
            let p = towards(self.position, (WIDTH - 1, self.position.1));
            self.position = p;
            self.check_safety();
        }
        if self.input.up {
            self.input.up = false;
            let p = towards(self.position, (self.position.0, 0));
            self.position = p;
            self.check_safety();
        }
        if self.input.down {
            self.input.down = false;
            let p = towards(self.position, (self.position.0, HEIGHT - 1));
            self.position = p;
            self.check_safety();
        }
    }

    /// The teleport intent for one frame (see `teleport_rel`).
    fn step_teleport(&mut self)
        requires
            old(self).wf(),
        ensures
            final(self).wf(),
            teleport_rel(*old(self), *final(self)),
    {
        if (self.input.button_a || self.input.button_b) && self.teleports > 0 {
            self.teleports = self.teleports - 1;
            let tp = self.random_free_spot();
            self.status = Status::Teleporting(tp.0, tp.1);
            self.anim_tick = 0;
            self.input.button_a = false;
        }
    }

    /// The active-phase frame (see `active_step`).
    #[verifier::rlimit(100)]
    #[verifier::spinoff_prover]
    fn tick_active(&mut self)
        requires
            old(self).wf(),
            old(self).status == Status::Active,
        ensures
            final(self).wf(),
            active_step(*old(self), *final(self)),
    {
        if self.input.escape {
            self.status = Status::Paused;
            self.input.escape = false;
        } else {
            let ghost pre0 = *self;
            self.step_dpad();
            let ghost mid1 = *self;
            self.step_teleport();
            let ghost m2 = *self;
            proof {
                assert(teleport_rel(mid1, m2));
            }
            if self.movement_tick == 0 {
                self.advance();
            }
            let ghost adv = *self;
            self.movement_tick = (self.movement_tick + 1) % self.speed;
            self.anim_tick = (self.anim_tick + 1) % 4;
            proof {
                if m2.movement_tick == 0 {
                    assert(advance_rel(m2, adv));
                    assert(adv == (Robots {
                        movement_tick: m2.movement_tick,
                        anim_tick: m2.anim_tick,
                        ..*self
                    }));
                }
                assert(active_step(pre0, *self));
            }
        }
    }

    /// The menu's pack-size increase (see `menu_pack_right`).
    fn menu_switch_right(&mut self)
        requires
            old(self).wf(),
        ensures
            final(self).wf(),
            menu_pack_right(*old(self), *final(self)),
    {
        if self.input.right {
            self.input.right = false;
            if self.config.robots < MAX_ROBOTS {
                self.config.robots = self.config.robots + 1;
                self.new_game();
            }
        }
    }

    /// The menu's pack-size decrease (see `menu_pack_left`).
    fn menu_switch_left(&mut self)
        requires
            old(self).wf(),
        ensures
            final(self).wf(),
            menu_pack_left(*old(self), *final(self)),
    {
        if self.input.left {
            self.input.left = false;
            if self.config.robots > 1 {
                self.config.robots = self.config.robots - 1;
                self.new_game();
            }
        }
    }

    /// The menu frame (see `menu_step` and `tick_result_spec`).
    #[verifier::rlimit(100)]
    #[verifier::spinoff_prover]
    fn tick_menu(&mut self, f: u32) -> (r: TickResult)
        requires
            old(self).wf(),
            old(self).status == Status::Menu(f),
        ensures
            final(self).wf(),
            menu_step(*old(self), *final(self), f),
            r == tick_result_spec(*old(self)),
    {
        self.status = Status::Menu((f + 1) % 70);
        if self.input.escape {
            self.input.escape = false;
            return TickResult::Exit;
        }
        if self.input.next {
            self.input.escape = false;
            return TickResult::NextGame;
        }
        if self.input.prev {
            self.input.escape = false;
            return TickResult::PrevGame;
        }
        let ghost pre1 = *self;
        self.menu_switch_right();
        let ghost m1 = *self;
        self.menu_switch_left();
        let ghost m2 = *self;
        proof {
            assert(menu_pack_right(pre1, m1) && menu_pack_left(m1, m2));
        }
        if self.input.drop {
            self.input.drop = false;
            self.status = Status::Active;
        }
        if self.input.up {
            self.input.up = false;
            if self.config.level < MAX_LEVEL - 1 {
                self.config.level = self.config.level + 1;
                self.speed = MAX_LEVEL - self.config.level;
            }
        }
        if self.input.down {
            self.input.down = false;
            if self.config.level > 0 {
                self.config.level = self.config.level - 1;
                self.speed = MAX_LEVEL - self.config.level;
            }
        }
        proof {
            assert(*self == menu_tail(m2));
        }
        TickResult::Continue
    }

    /// The teleport-animation frame (see `teleport_step`).
    #[verifier::rlimit(100)]
    #[verifier::spinoff_prover]
    fn tick_teleport(&mut self, px: usize, py: usize)
        requires
            old(self).wf(),
            old(self).status == Status::Teleporting(px, py),
        ensures
            final(self).wf(),
            teleport_step(*old(self), *final(self), px, py),
    {
        if self.anim_tick == 0 {
            let (x0, y0) = self.position;
            let ax0 = if x0 == 0 {
                0
            } else {
                x0 - 1
            };
            let ay0 = if y0 == 0 {
                0
            } else {
                y0 - 1
            };
            let ax1 = if x0 == WIDTH - 1 {
                x0
            } else {
                x0 + 1
            };
            let ay1 = if y0 == HEIGHT - 1 {
                y0
            } else {
                y0 + 1
            };
            self.obliterate(ax0, ay0, ax1, ay1);
            let ghost m1 = *self;
            let bx0 = if px == 0 {
                0
            } else {
                px - 1
            };
            let by0 = if py == 0 {
                0
            } else {
                py - 1
            };
            let bx1 = if px == WIDTH - 1 {
                px
            } else {
                px + 1
            };
            let by1 = if py == HEIGHT - 1 {
                py
            } else {
                py + 1
            };
            self.obliterate(bx0, by0, bx1, by1);
            self.position = (px, py);
            self.status = Status::Active;
            proof {
                let r0 = blast_rect(old(self).position);
                assert(obliterate_rel(*old(self), m1, r0.0, r0.1, r0.2, r0.3));
            }
        } else {
            self.anim_tick = (self.anim_tick + 1) % 8;
        }
    }

    /// One frame of simulation: consume the buffered intents for the
    /// current lifecycle phase, advance the world, and tell the driver
    /// whether to continue, exit, or switch game.
    pub fn tick(&mut self) -> (r: TickResult)
        requires
            old(self).wf(),
        ensures
            final(self).wf(),
            r == tick_result_spec(*old(self)),
            tick_step(*old(self), *final(self)),
    {
        match self.status {
            Status::Active => {
                self.tick_active();
            },
            Status::Paused => {
                if self.input.drop || self.input.button_a || self.input.button_b
                    || self.input.left || self.input.right || self.input.down || self.input.up {
                    self.status = Status::Active;
                } else if self.input.escape {
                    self.input.escape = false;
                    self.status = Status::Raising(0);
                }
            },
            Status::Raising(f) => {
                if f == HEIGHT {
                    self.new_game();
                    self.status = Status::Lowering(HEIGHT);
                } else {
                    self.status = Status::Raising(f + 1);
                }
            },
            Status::Lowering(f) => {
                if f == 0 {
                    self.status = Status::Menu(0);
                } else {
                    self.status = Status::Lowering(f - 1);
                }
            },
            Status::Menu(f) => {
                return self.tick_menu(f);
            },
            Status::Teleporting(px, py) => {
                self.tick_teleport(px, py);
            },
        }
        TickResult::Continue
    }

    /// A fresh game over a loaded best-score table: the menu showing, five
    /// robots configured at level zero, and a freshly seeded board.
    pub fn new(score_table: ScoreTable) -> (g: Robots)
        requires
            score_table.wf(),
            score_table.spec_levels() == MAX_LEVEL,
            score_table.spec_variants() == MAX_ROBOTS + 1,
        ensures
            g.wf(),
            g.status == Status::Menu(0),
            g.config == (Config { robots: 5, level: 0 }),
            g.points == 0,
            g.save_pending == false,
            g.teleports == START_TELEPORTS,
            g.speed == MAX_LEVEL,
            g.position == ((WIDTH / 2) as usize, (HEIGHT / 2) as usize),
            g.robots@.len() == 5,
            table_bumped(score_table, g.score_table, 0, 5, 0),
            exists|spawns: Seq<(usize, usize)>|
                #![trigger spawn_list_ok(spawns)]
                {
                    &&& spawn_list_ok(spawns)
                    &&& spawns.len() == 5
                    &&& g.robots@ == spawns
                    &&& forall|x: int, y: int|
                        0 <= x < WIDTH && 0 <= y < HEIGHT ==> #[trigger] g.board.at(x, y)
                            == place_result(Cell::Empty, arrivals(spawns, x, y, 5))
                },
    {
        let mut g = Robots {
            config: Config { robots: 5, level: 0 },
            status: Status::Menu(0),
            board: Imprint::empty(WIDTH, HEIGHT),
            movement_tick: 0,
            speed: MAX_LEVEL - 9,
            position: (WIDTH / 2, HEIGHT / 2),
            robots: Vec::new(),
            points: 0,
            teleports: START_TELEPORTS,
            score_table,
            input: InputState::new(),
            anim_tick: 0,
            save_pending: false,
        };
        g.new_game();
        g
    }

    /// The level reached, counted up from the starting ambient speed.
    pub fn current_level(&self) -> (r: u32)
        requires
            self.wf(),
        ensures
            r == MAX_LEVEL - self.speed,
    {
        MAX_LEVEL - self.speed
    }

    /// The running score.
    pub fn score(&self) -> (r: u32)
        ensures
            r == self.points,
    {
        self.points
    }

    /// The stored best score for the current configuration.
    pub fn top_score(&self) -> (r: u32)
        requires
            self.wf(),
        ensures
            r == self.score_table.score_at(self.config.level as int, self.config.robots as int),
    {
        self.score_table.get_top_score(self.config.level as usize, self.config.robots as usize)
    }

    /// Whether the game is paused.
    pub fn is_paused(&self) -> (r: bool)
        ensures
            r == (self.status is Paused),
    {
        match self.status {
            Status::Paused => true,
            _ => false,
        }
    }

    /// The serialized best-score table, handed out once after each
    /// improvement for the caller to write to the store.
    pub fn take_save_request(&mut self) -> (r: Option<Vec<u8>>)
        requires
            old(self).wf(),
        ensures
            *final(self) == (Robots { save_pending: false, ..*old(self) }),
            (r is Some) == old(self).save_pending,
            r matches Some(bytes) ==> crate::score_table::table_encoded(
                old(self).score_table,
                bytes@,
            ),
    {
        if self.save_pending {
            self.save_pending = false;
            Some(self.score_table.to_bytes())
        } else {
            None
        }
    }
}

impl crate::game::Game for Robots {
    type CellData = CellData;

    open spec fn inv(&self) -> bool {
        self.wf()
    }

    fn current_level(&self) -> u32 {
        Robots::current_level(self)
    }

    fn score(&self) -> u32 {
        Robots::score(self)
    }

    fn top_score(&self) -> u32 {
        Robots::top_score(self)
    }

    fn board(&self) -> &Imprint<CellData> {
        &self.board
    }

    fn next(&self) -> Option<Imprint<CellData>> {
        None
    }

    fn tick(&mut self) -> TickResult {
        Robots::tick(self)
    }

    fn is_paused(&self) -> bool {
        Robots::is_paused(self)
    }

    fn input_state(&mut self) -> &mut InputState {
        &mut self.input
    }

    fn take_save_request(&mut self) -> Option<Vec<u8>> {
        Robots::take_save_request(self)
    }
}

} // verus!
