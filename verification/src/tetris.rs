//! The block-stacking game: a falling piece over a 10 x 22 grid (20 visible
//! rows plus a 2-row spawn buffer), gravity that speeds up as lines clear,
//! autorepeat for held left/right intents, and the menu / pause / raising /
//! lowering lifecycle around each run.

use crate::game::{sat_add, sat_add32, InputState, TickResult};
use crate::imprint::{
    count_differing, grid_cleared, lemma_ascending_bounded_len, lemma_count_differing_congruence,
    lemma_full_rows_len, lemma_full_rows_props, strictly_ascending, Cell, Imprint,
};
use crate::piece::{footprint_at, footprint_size, is_footprint_of, spec_rotate_r, Piece};
use crate::score_table::{table_bumped, ScoreTable};
use vstd::prelude::*;

verus! {

pub const WIDTH: usize = 10;

pub const HEIGHT: usize = 20;

/// Hidden spawn rows above the visible board.
pub const BUFFER: usize = 2;

/// Total grid height including the spawn buffer.
pub const BOARD_H: usize = 22;

/// Lines to clear before the gravity period shortens by one frame.
pub const ADVANCE_SPEED: i32 = 11;

pub const MAX_LEVEL: u32 = crate::FRAMERATE;

/// Highest selectable count of pre-seeded clutter rows.
pub const MAX_BTYPE: u32 = 14;

/// Frames a held left/right intent waits before autorepeating.
pub const KEY_DELAY: u32 = 2;

/// The difficulty pair keying the best-score table: pre-seeded clutter rows
/// and starting level.
#[derive(Debug, Copy, Clone, PartialEq, Eq, Structural)]
pub struct Config {
    pub btype: u32,
    pub level: u32,
}

/// The game's lifecycle phase.
#[derive(Debug, Copy, Clone, PartialEq, Eq, Structural)]
pub enum Status {
    Active,
    Paused,
    Raising(usize),
    Lowering(usize),
    Menu(u32),
    Clearing(i32),
    Placing(Piece, i32, i32),
}

/// The block game's whole state: grid, falling and upcoming piece, score,
/// buffered input and the persisted best-score table.
pub struct Tetris {
    pub config: Config,
    pub status: Status,
    pub current: Piece,
    pub position: (i32, i32),
    pub lines: Vec<usize>,
    pub next: Piece,
    pub input: InputState,
    pub board: Imprint<()>,
    pub points: u32,
    pub score_table: ScoreTable,
    pub drop_rate: u32,
    pub gravity_tick: u32,
    pub speed: u32,
    pub remaining: i32,
    pub save_pending: bool,
}

/// Every filled cell of `p`'s footprint, translated by `(x0, y0)`, lands in
/// bounds of `board` and over an empty cell.
pub open spec fn piece_fits(board: Imprint<()>, p: Piece, x0: int, y0: int) -> bool {
    forall|x: int, y: int|
        0 <= x < footprint_size(p) && 0 <= y < footprint_size(p) && #[trigger] footprint_at(
            p,
            x,
            y,
        ) ==> board.in_bounds(x0 + x, y0 + y) && board.at(x0 + x, y0 + y) is Empty
}

/// The spawn buffer rows are all empty.
pub open spec fn buffer_clear(board: Imprint<()>) -> bool {
    forall|x: int, y: int|
        0 <= x < board.spec_width() && 0 <= y < BUFFER ==> #[trigger] board.at(x, y) is Empty
}

/// Where a fresh piece spawns: horizontally centered, one row down except
/// for the flat I orientation.
pub open spec fn spawn_pos(p: Piece) -> (i32, i32) {
    (
        ((WIDTH - footprint_size(p)) / 2) as i32,
        if p == Piece::I1 {
            0i32
        } else {
            1i32
        },
    )
}

/// `post` is `pre` with `p`'s footprint stamped at `(x0, y0)` (clipped at
/// the edges).
pub open spec fn piece_stamped(
    pre: Imprint<()>,
    p: Piece,
    x0: int,
    y0: int,
    post: Imprint<()>,
) -> bool {
    &&& post.wf()
    &&& post.spec_width() == pre.spec_width()
    &&& post.spec_height() == pre.spec_height()
    &&& forall|xx: int, yy: int|
        pre.in_bounds(xx, yy) ==> #[trigger] post.at(xx, yy) == (if footprint_at(
            p,
            xx - x0,
            yy - y0,
        ) {
            Cell::Filled(())
        } else {
            pre.at(xx, yy)
        })
}

/// The grid holds `btype` partially randomized clutter rows at the bottom
/// and nothing else; each clutter row keeps at least half its cells filled
/// (at most `WIDTH / 2` random knockouts per row).
pub open spec fn clutter_seeded(board: Imprint<()>, btype: int) -> bool {
    &&& board.wf()
    &&& board.spec_width() == WIDTH
    &&& board.spec_height() == BOARD_H
    &&& forall|x: int, y: int|
        0 <= x < WIDTH && 0 <= y < BOARD_H - btype ==> #[trigger] board.at(x, y) is Empty
    &&& forall|x: int, y: int|
        0 <= x < WIDTH && BOARD_H - btype <= y < BOARD_H ==> ((#[trigger] board.at(x, y)
            == Cell::Filled(())) || (board.at(x, y) is Empty))
    &&& forall|y: int|
        BOARD_H - btype <= y < BOARD_H ==> #[trigger] count_differing(
            board,
            y,
            Cell::Filled(()),
            WIDTH as int,
        ) <= (WIDTH as int) / 2
}

/// Points for clearing `lines` lines at once, scaled by the level reached.
pub open spec fn line_award(lines: int, level: u32) -> int {
    (if lines == 1 {
        40int
    } else if lines == 2 {
        100int
    } else if lines == 3 {
        300int
    } else {
        1200int
    }) * (level + 1)
}

/// Run the level-progression counter: each time `remaining` falls to zero
/// or below it resets by `ADVANCE_SPEED` and the gravity period shortens by
/// one frame (never below one).
pub open spec fn level_up(remaining: int, speed: int) -> (int, int)
    decreases (if remaining <= 0 {
        1 - remaining
    } else {
        0
    }),
{
    if remaining <= 0 {
        level_up(
            remaining + ADVANCE_SPEED as int,
            if speed > 1 {
                speed - 1
            } else {
                speed
            },
        )
    } else {
        (remaining, speed)
    }
}

/// The cleared-line index list is fit for compaction: ascending, in bounds.
pub open spec fn lines_ok(s: Seq<usize>, h: int) -> bool {
    strictly_ascending(s) && (forall|i: int| 0 <= i < s.len() ==> s[i] < h)
}

impl Tetris {
    /// Structural soundness: board and table dimensions, counter ranges, the
    /// piece position near the board, and the cleared-line list only alive
    /// during the clearing phase.
    pub open spec fn wf(self) -> bool {
        &&& self.board.wf()
        &&& self.board.spec_width() == WIDTH
        &&& self.board.spec_height() == BOARD_H
        &&& self.score_table.wf()
        &&& self.score_table.spec_levels() == MAX_LEVEL
        &&& self.score_table.spec_variants() == MAX_BTYPE + 1
        &&& self.config.level < MAX_LEVEL
        &&& self.config.btype <= MAX_BTYPE
        &&& 1 <= self.speed <= MAX_LEVEL
        &&& self.gravity_tick <= MAX_LEVEL
        &&& -4 <= self.position.0 <= WIDTH
        &&& -4 <= self.position.1 <= BOARD_H
        &&& 1 <= self.remaining <= ADVANCE_SPEED * (MAX_LEVEL as i32)
        &&& match self.status {
            Status::Raising(f) => BUFFER <= f <= BOARD_H,
            Status::Lowering(f) => BUFFER <= f <= BOARD_H,
            Status::Menu(f) => f < 70,
            Status::Clearing(f) => 0 <= f <= 3 * (BOARD_H as i32),
            _ => true,
        }
        &&& (self.status is Clearing ==> lines_ok(self.lines@, BOARD_H as int))
        &&& (!(self.status is Clearing) ==> self.lines@.len() == 0)
    }
}

/// A footprint grid of `p` accepts exactly where the footprint table fits.
pub proof fn lemma_fits_footprint(board: Imprint<()>, fp: Imprint<()>, p: Piece, x0: int, y0: int)
    requires
        is_footprint_of(fp, p),
    ensures
        board.accepts_spec(fp, x0, y0) == piece_fits(board, p, x0, y0),
{
    if board.accepts_spec(fp, x0, y0) {
        assert forall|x: int, y: int|
            0 <= x < footprint_size(p) && 0 <= y < footprint_size(p) && #[trigger] footprint_at(
                p,
                x,
                y,
            ) implies board.in_bounds(x0 + x, y0 + y) && board.at(x0 + x, y0 + y) is Empty by {
            assert(fp.at(x, y) == Cell::Filled(()));
        }
    }
    if piece_fits(board, p, x0, y0) {
        assert forall|x: int, y: int|
            fp.in_bounds(x, y) && !(#[trigger] fp.at(x, y) is Empty) implies board.in_bounds(
            x0 + x,
            y0 + y,
        ) && board.at(x0 + x, y0 + y) is Empty by {
            assert(footprint_at(p, x, y));
        }
    }
}

/// A fitting piece stays near the board: fitting bounds the offset.
pub proof fn lemma_fits_bounds(board: Imprint<()>, p: Piece, x0: int, y0: int)
    requires
        piece_fits(board, p, x0, y0),
        board.spec_width() == WIDTH,
        board.spec_height() == BOARD_H,
    ensures
        -3 <= x0 < WIDTH,
        -3 <= y0 < BOARD_H,
{
    crate::piece::lemma_footprint_occupied(p);
    let (wx, wy) = choose|wx: int, wy: int|
        0 <= wx < footprint_size(p) && 0 <= wy < footprint_size(p) && #[trigger] footprint_at(
            p,
            wx,
            wy,
        );
    assert(board.in_bounds(x0 + wx, y0 + wy));
}

impl Tetris {
    /// Move the falling piece to `(x, y)` when the board accepts it there;
    /// report whether it moved. An unaccepted move silently changes nothing.
    pub fn move_piece(&mut self, x: i32, y: i32) -> (moved: bool)
        requires
            old(self).wf(),
        ensures
            moved == piece_fits(old(self).board, old(self).current, x as int, y as int),
            moved ==> *final(self) == (Tetris { position: (x, y), ..*old(self) }),
            !moved ==> *final(self) == *old(self),
            final(self).wf(),
    {
        let fp = self.current.imprint();
        proof {
            lemma_fits_footprint(self.board, fp, self.current, x as int, y as int);
        }
        if self.board.accepts(&fp, (x, y)) {
            proof {
                lemma_fits_bounds(self.board, self.current, x as int, y as int);
            }
            self.position = (x, y);
            true
        } else {
            false
        }
    }

    /// Switch the falling piece to variant `p` when the board accepts it at
    /// the current position; report whether it switched.
    pub fn switch_piece(&mut self, p: Piece) -> (switched: bool)
        requires
            old(self).wf(),
        ensures
            switched == piece_fits(
                old(self).board,
                p,
                old(self).position.0 as int,
                old(self).position.1 as int,
            ),
            switched ==> *final(self) == (Tetris { current: p, ..*old(self) }),
            !switched ==> *final(self) == *old(self),
            final(self).wf(),
    {
        let fp = p.imprint();
        proof {
            lemma_fits_footprint(self.board, fp, p, self.position.0 as int, self.position.1 as int);
        }
        if self.board.accepts(&fp, self.position) {
            self.current = p;
            true
        } else {
            false
        }
    }
}

/// One of the seven spawn representatives.
pub open spec fn is_base_variant(p: Piece) -> bool {
    p is I1 || p is O1 || p is J1 || p is L1 || p is S1 || p is T1 || p is Z1
}

/// The spawn step: the buffered piece becomes current, a fresh random piece
/// is buffered, the new piece is centered at the top, and an obstructed or
/// rejected spawn begins the game-over raising animation.
pub open spec fn spawned(pre: Tetris, post: Tetris) -> bool {
    let p = pre.next;
    let sp = spawn_pos(p);
    &&& post.current == p
    &&& post.gravity_tick == 0
    &&& is_base_variant(post.next)
    &&& post.position == sp
    &&& post.status == (if piece_fits(pre.board, p, sp.0 as int, sp.1 as int) && buffer_clear(
        pre.board,
    ) {
        pre.status
    } else {
        Status::Raising(BOARD_H)
    })
    &&& post.config == pre.config
    &&& post.lines == pre.lines
    &&& post.input == pre.input
    &&& post.board == pre.board
    &&& post.points == pre.points
    &&& post.score_table == pre.score_table
    &&& post.drop_rate == pre.drop_rate
    &&& post.speed == pre.speed
    &&& post.remaining == pre.remaining
    &&& post.save_pending == pre.save_pending
}

/// The whole-run reset bracketed by the raising/lowering animations: the
/// ended run's score is folded into the best-score table (flagging a store
/// rewrite on improvement), the board is rebuilt with the configured clutter
/// rows, two spawns refill current and next, and score, drop bonus, speed
/// and level progression restart from the configuration. The lifecycle
/// phase itself is the caller's business.
pub open spec fn new_game_core(pre: Tetris, post: Tetris) -> bool {
    &&& table_bumped(
        pre.score_table,
        post.score_table,
        pre.config.level as int,
        pre.config.btype as int,
        pre.points,
    )
    &&& post.save_pending == (pre.save_pending || pre.points > pre.score_table.score_at(
        pre.config.level as int,
        pre.config.btype as int,
    ))
    &&& post.points == 0
    &&& post.drop_rate == 0
    &&& post.speed == MAX_LEVEL - pre.config.level
    &&& post.remaining == (pre.config.level + 1) * (ADVANCE_SPEED as u32)
    &&& post.gravity_tick == 0
    &&& is_base_variant(post.current)
    &&& is_base_variant(post.next)
    &&& post.position == spawn_pos(post.current)
    &&& clutter_seeded(post.board, pre.config.btype as int)
    &&& post.config == pre.config
    &&& post.input == pre.input
    &&& post.lines == pre.lines
}

/// One forced descent step: the piece moves a row down when accepted there;
/// otherwise it locks into the grid, the drop bonus is paid out, and the
/// frame result is a one-frame placing flash (no full rows) or a clearing
/// countdown of three frames per full row with the level progression
/// advanced by the rows cleared.
pub open spec fn down_rel(pre: Tetris, post: Tetris) -> bool {
    let x = pre.position.0 as int;
    let y = pre.position.1 as int;
    if piece_fits(pre.board, pre.current, x, y + 1) {
        post == (Tetris { position: (pre.position.0, (y + 1) as i32), ..pre })
    } else {
        &&& piece_stamped(pre.board, pre.current, x, y, post.board)
        &&& {
            let fl = post.board.full_rows();
            if fl.len() == 0 {
                &&& post.lines@ == pre.lines@
                &&& post.points == sat_add32(pre.points, pre.drop_rate)
                &&& post.drop_rate == 0
                &&& post.status == Status::Placing(pre.current, pre.position.0, pre.position.1)
                &&& post.config == pre.config
                &&& post.current == pre.current
                &&& post.position == pre.position
                &&& post.next == pre.next
                &&& post.input == pre.input
                &&& post.score_table == pre.score_table
                &&& post.gravity_tick == pre.gravity_tick
                &&& post.speed == pre.speed
                &&& post.remaining == pre.remaining
                &&& post.save_pending == pre.save_pending
            } else {
                &&& post.lines@ == fl
                &&& post.status == Status::Clearing((3 * fl.len()) as i32)
                &&& post.remaining == level_up(pre.remaining - fl.len(), pre.speed as int).0
                &&& post.speed == level_up(pre.remaining - fl.len(), pre.speed as int).1
                &&& post.points == sat_add32(pre.points, pre.drop_rate)
                &&& post.drop_rate == 0
                &&& post.config == pre.config
                &&& post.current == pre.current
                &&& post.position == pre.position
                &&& post.next == pre.next
                &&& post.input == pre.input
                &&& post.score_table == pre.score_table
                &&& post.gravity_tick == pre.gravity_tick
                &&& post.save_pending == pre.save_pending
            }
        }
    }
}

/// Rows `y+1 ..= y+d` all accept the piece: a clear fall path of length `d`.
pub open spec fn drop_steps_ok(pre: Tetris, d: int) -> bool {
    forall|j: int|
        1 <= j <= d ==> #[trigger] piece_fits(
            pre.board,
            pre.current,
            pre.position.0 as int,
            pre.position.1 + j,
        )
}

/// The state just before the landing descent of a hard drop of `d` free
/// steps: the piece has fallen `d` rows and the drop bonus counts each
/// forced step including the landing one.
pub open spec fn drop_inter(pre: Tetris, d: int) -> Tetris {
    Tetris {
        position: (pre.position.0, (pre.position.1 + d) as i32),
        drop_rate: sat_add32(pre.drop_rate, (d + 1) as u32),
        ..pre
    }
}

/// A hard drop: repeated forced descent until the piece locks; the piece
/// falls through every free row below it and the landing then follows the
/// one-step descent relation.
pub open spec fn hard_drop_rel(pre: Tetris, post: Tetris) -> bool {
    exists|d: int|
        0 <= d <= BOARD_H + 4 && #[trigger] drop_steps_ok(pre, d) && !piece_fits(
            pre.board,
            pre.current,
            pre.position.0 as int,
            pre.position.1 + d + 1,
        ) && down_rel(drop_inter(pre, d), post)
}

impl Tetris {
    /// Pay out the score for `lines` simultaneously cleared rows, scaled by
    /// the level reached.
    fn award_points(&mut self, lines: u32)
        requires
            old(self).wf(),
        ensures
            *final(self) == (Tetris {
                points: sat_add32(
                    old(self).points,
                    line_award(lines as int, (MAX_LEVEL - old(self).speed) as u32) as u32,
                ),
                ..*old(self)
            }),
    {
        let level = (MAX_LEVEL - self.speed) + 1;
        let award = if lines == 1 {
            40 * level
        } else if lines == 2 {
            100 * level
        } else if lines == 3 {
            300 * level
        } else {
            1200 * level
        };
        self.points = sat_add(self.points, award);
    }

    /// One forced descent step (see `down_rel`).
    pub fn down(&mut self)
        requires
            old(self).wf(),
            old(self).status == Status::Active,
        ensures
            final(self).wf(),
            down_rel(*old(self), *final(self)),
    {
        let (x, y) = self.position;
        if !self.move_piece(x, y + 1) {
            self.points = sat_add(self.points, self.drop_rate);
            self.drop_rate = 0;
            let fp = self.current.imprint();
            self.board.stamp(&fp, self.position);
            proof {
                assert forall|xx: int, yy: int|
                    old(self).board.in_bounds(xx, yy) implies #[trigger] self.board.at(xx, yy) == (
                if footprint_at(self.current, xx - x, yy - y) {
                    Cell::Filled(())
                } else {
                    old(self).board.at(xx, yy)
                }) by {
                    if Imprint::covered_by(fp, x as int, y as int, xx, yy) {
                        assert(footprint_at(self.current, xx - x, yy - y));
                        assert(fp.at(xx - x, yy - y) == Cell::Filled(()));
                    } else {
                        if 0 <= xx - x < footprint_size(self.current) && 0 <= yy - y
                            < footprint_size(self.current) && footprint_at(
                            self.current,
                            xx - x,
                            yy - y,
                        ) {
                            assert(fp.at(xx - x, yy - y) == Cell::Filled(()));
                        }
                        assert(!footprint_at(self.current, xx - x, yy - y));
                    }
                }
                assert(piece_stamped(old(self).board, self.current, x as int, y as int, self.board));
            }
            if !self.board.full_lines(&mut self.lines) {
                self.status = Status::Placing(self.current, x, y);
                proof {
                    assert(self.lines@ =~= old(self).lines@);
                }
            } else {
                let n = self.lines.len();
                proof {
                    lemma_full_rows_props(self.board, BOARD_H as int);
                    lemma_full_rows_len(self.board, BOARD_H as int);
                    assert(self.lines@ =~= self.board.full_rows());
                }
                let ghost rem0 = self.remaining as int;
                let ghost spd0 = self.speed as int;
                self.remaining = self.remaining - (n as i32);
                let ghost base = *self;
                while self.remaining <= 0
                    invariant
                        1 <= self.speed <= MAX_LEVEL,
                        self.remaining <= ADVANCE_SPEED * (MAX_LEVEL as i32),
                        self.remaining >= -(BOARD_H as i32),
                        level_up(self.remaining as int, self.speed as int) == level_up(
                            rem0 - n,
                            spd0,
                        ),
                        *self == (Tetris {
                            remaining: self.remaining,
                            speed: self.speed,
                            ..base
                        }),
                    decreases (if self.remaining <= 0 {
                        1 - self.remaining
                    } else {
                        0int
                    }),
                {
                    self.remaining = self.remaining + ADVANCE_SPEED;
                    if self.speed > 1 {
                        self.speed = self.speed - 1;
                    }
                }
                self.status = Status::Clearing((n as i32) * 3);
            }
        }
    }

    /// Repeated forced descent until the piece locks, charging one drop
    /// bonus point per forced step (see `hard_drop_rel`).
    pub fn hard_drop(&mut self)
        requires
            old(self).wf(),
            old(self).status == Status::Active,
        ensures
            final(self).wf(),
            hard_drop_rel(*old(self), *final(self)),
    {
        let ghost pre = *old(self);
        let ghost mut d: int = 0;
        while self.status == Status::Active
            invariant
                self.wf(),
                pre.wf(),
                pre == *old(self),
                self.status == Status::Active ==> {
                    &&& 0 <= d <= BOARD_H + 4
                    &&& drop_steps_ok(pre, d)
                    &&& *self == (Tetris {
                        position: (pre.position.0, (pre.position.1 + d) as i32),
                        drop_rate: sat_add32(pre.drop_rate, d as u32),
                        ..pre
                    })
                },
                self.status != Status::Active ==> hard_drop_rel(pre, *self),
            decreases
                    (if self.status == Status::Active {
                        1int
                    } else {
                        0int
                    }),
                    BOARD_H + 5 - d,
        {
            self.drop_rate = sat_add(self.drop_rate, 1);
            let ghost mid = *self;
            proof {
                assert(mid.drop_rate == sat_add32(pre.drop_rate, (d + 1) as u32));
                assert(mid == drop_inter(pre, d));
            }
            self.down();
            proof {
                if self.status == Status::Active {
                    assert(piece_fits(
                        pre.board,
                        pre.current,
                        pre.position.0 as int,
                        pre.position.1 + d + 1,
                    ));
                    d = d + 1;
                } else {
                    assert(!piece_fits(
                        pre.board,
                        pre.current,
                        pre.position.0 as int,
                        pre.position.1 + d + 1,
                    ));
                    assert(down_rel(drop_inter(pre, d), *self));
                    assert(hard_drop_rel(pre, *self));
                }
            }
        }
    }

    /// Promote the buffered piece, draw a fresh random one, and center the
    /// new piece at the top; an obstructed spawn begins the game-over
    /// raising animation (see `spawned`).
    pub fn new_piece(&mut self)
        requires
            old(self).wf(),
            !(old(self).status is Clearing),
        ensures
            final(self).wf(),
            spawned(*old(self), *final(self)),
    {
        self.current = self.next;
        self.gravity_tick = 0;
        self.next = Piece::from_random(crate::rng::random_u32());
        let fp = self.current.imprint();
        let (w, _h) = fp.size();
        let x = ((WIDTH as i32) - (w as i32)) / 2;
        let y: i32 = if self.current == Piece::I1 {
            0
        } else {
            1
        };
        self.position = (x, y);
        let moved = self.move_piece(x, y);
        let clear = self.board.all_clear(BUFFER);
        if !moved || !clear {
            self.status = Status::Raising(BOARD_H);
        }
    }

    /// The whole-run reset (see `new_game_core`): fold the ended run's score
    /// into the best-score table, rebuild the board with the configured
    /// clutter rows, and restart piece, score and speed state.
    pub fn new_game(&mut self)
        requires
            old(self).wf(),
            !(old(self).status is Clearing),
        ensures
            final(self).wf(),
            new_game_core(*old(self), *final(self)),
            final(self).status == old(self).status,
    {
        self.board = Imprint::empty(WIDTH, BOARD_H);
        let improved = self.score_table.update_scores(
            self.config.level as usize,
            self.config.btype as usize,
            self.points,
        );
        if improved {
            self.save_pending = true;
        }
        self.new_piece();
        self.new_piece();
        self.points = 0;
        self.drop_rate = 0;
        self.speed = MAX_LEVEL - self.config.level;
        self.remaining = ((self.config.level + 1) as i32) * ADVANCE_SPEED;
        let ghost entry = *self;
        let mut i: u32 = 0;
        while i < self.config.btype
            invariant
                i <= self.config.btype,
                self.config.btype <= MAX_BTYPE,
                self.board.wf(),
                self.board.spec_width() == WIDTH,
                self.board.spec_height() == BOARD_H,
                forall|x: int, y: int|
                    0 <= x < WIDTH && 0 <= y < BOARD_H - i ==> #[trigger] self.board.at(x, y) is Empty,
                forall|x: int, y: int|
                    0 <= x < WIDTH && BOARD_H - i <= y < BOARD_H ==> ((#[trigger] self.board.at(
                        x,
                        y,
                    ) == Cell::Filled(())) || (self.board.at(x, y) is Empty)),
                forall|y: int|
                    BOARD_H - i <= y < BOARD_H ==> #[trigger] count_differing(
                        self.board,
                        y,
                        Cell::Filled(()),
                        WIDTH as int,
                    ) <= (WIDTH as int) / 2,
                *self == (Tetris { board: self.board, ..entry }),
            decreases self.config.btype - i,
        {
            let top = BOARD_H - 1 - (i as usize);
            let ghost before = self.board;
            self.board.random_line(top, Cell::Filled(()));
            proof {
                assert forall|y: int|
                    BOARD_H - (i + 1) <= y < BOARD_H implies #[trigger] count_differing(
                    self.board,
                    y,
                    Cell::Filled(()),
                    WIDTH as int,
                ) <= (WIDTH as int) / 2 by {
                    if y != top {
                        lemma_count_differing_congruence(
                            before,
                            self.board,
                            y,
                            Cell::Filled(()),
                            WIDTH as int,
                        );
                    }
                }
            }
            i = i + 1;
        }
    }
}

/// Any buffered intent that wakes the game from pause.
pub open spec fn resume_intent(i: InputState) -> bool {
    i.drop || i.button_a || i.button_b || i.left || i.right || i.down || i.up
}

/// Paused: any movement, rotation or drop intent resumes play; escape gives
/// the run up and begins the raising animation; otherwise nothing changes.
pub open spec fn paused_step(pre: Tetris, post: Tetris) -> bool {
    if resume_intent(pre.input) {
        post == (Tetris { status: Status::Active, ..pre })
    } else if pre.input.escape {
        post == (Tetris {
            status: Status::Raising(BOARD_H),
            input: InputState { escape: false, ..pre.input },
            ..pre
        })
    } else {
        post == pre
    }
}

/// Raising: the progress counter runs down to the spawn buffer, where the
/// whole-run reset happens and the lowering animation starts.
pub open spec fn raising_step(pre: Tetris, post: Tetris, f: usize) -> bool {
    if f == BUFFER {
        new_game_core(pre, post) && post.status == Status::Lowering(BUFFER)
    } else {
        post == (Tetris { status: Status::Raising((f - 1) as usize), ..pre })
    }
}

/// Lowering: the progress counter runs back up to the full board height,
/// then the menu takes over.
pub open spec fn lowering_step(pre: Tetris, post: Tetris, f: usize) -> bool {
    if f == BOARD_H {
        post == (Tetris { status: Status::Menu(0), ..pre })
    } else {
        post == (Tetris { status: Status::Lowering((f + 1) as usize), ..pre })
    }
}

/// Clearing: the flash countdown ticks down; at zero the cleared rows are
/// paid out and compacted and the next piece spawns.
pub open spec fn clearing_step(pre: Tetris, post: Tetris, f: i32) -> bool {
    if f == 0 {
        &&& grid_cleared(pre.board, pre.lines@, post.board)
        &&& post.lines@.len() == 0
        &&& post.points == sat_add32(
            pre.points,
            line_award(pre.lines@.len() as int, (MAX_LEVEL - pre.speed) as u32) as u32,
        )
        &&& post.current == pre.next
        &&& post.gravity_tick == 0
        &&& is_base_variant(post.next)
        &&& post.position == spawn_pos(pre.next)
        &&& post.status == (if piece_fits(
            post.board,
            pre.next,
            spawn_pos(pre.next).0 as int,
            spawn_pos(pre.next).1 as int,
        ) && buffer_clear(post.board) {
            Status::Active
        } else {
            Status::Raising(BOARD_H)
        })
        &&& post.config == pre.config
        &&& post.input == pre.input
        &&& post.score_table == pre.score_table
        &&& post.drop_rate == pre.drop_rate
        &&& post.speed == pre.speed
        &&& post.remaining == pre.remaining
        &&& post.save_pending == pre.save_pending
    } else {
        post == (Tetris { status: Status::Clearing((f - 1) as i32), ..pre })
    }
}

/// Placing: the one-frame landed flash resolves into play with the next
/// piece spawned.
pub open spec fn placing_step(pre: Tetris, post: Tetris) -> bool {
    spawned(Tetris { status: Status::Active, ..pre }, post)
}

/// The menu's clutter-row increase: a held right intent (consumed here)
/// seeds one more randomized bottom row and widens the configuration.
pub open spec fn menu_clutter_right(pre: Tetris, post: Tetris) -> bool {
    if pre.input.right && pre.config.btype < MAX_BTYPE {
        let row = BOARD_H - 1 - pre.config.btype;
        &&& post.input == (InputState { right: false, ..pre.input })
        &&& post.config == (Config { btype: (pre.config.btype + 1) as u32, level: pre.config.level })
        &&& post.board.wf()
        &&& post.board.spec_width() == WIDTH
        &&& post.board.spec_height() == BOARD_H
        &&& forall|x: int, y: int|
            0 <= x < WIDTH && 0 <= y < BOARD_H && y != row ==> #[trigger] post.board.at(x, y)
                == pre.board.at(x, y)
        &&& forall|x: int|
            0 <= x < WIDTH ==> ((#[trigger] post.board.at(x, row as int) == Cell::Filled(())) || (
            post.board.at(x, row as int) is Empty))
        &&& count_differing(post.board, row as int, Cell::Filled(()), WIDTH as int) <= (
        WIDTH as int) / 2
        &&& post.status == pre.status
        &&& post.current == pre.current
        &&& post.position == pre.position
        &&& post.lines == pre.lines
        &&& post.next == pre.next
        &&& post.points == pre.points
        &&& post.score_table == pre.score_table
        &&& post.drop_rate == pre.drop_rate
        &&& post.gravity_tick == pre.gravity_tick
        &&& post.speed == pre.speed
        &&& post.remaining == pre.remaining
        &&& post.save_pending == pre.save_pending
    } else {
        post == pre
    }
}

/// The menu's clutter-row decrease: a held left intent (consumed here)
/// blanks the top clutter row and narrows the configuration.
pub open spec fn menu_clutter_left(pre: Tetris, post: Tetris) -> bool {
    if pre.input.left && pre.config.btype > 0 {
        let row = BOARD_H - 1 - (pre.config.btype - 1);
        &&& post.input == (InputState { left: false, ..pre.input })
        &&& post.config == (Config { btype: (pre.config.btype - 1) as u32, level: pre.config.level })
        &&& post.board.wf()
        &&& post.board.spec_width() == WIDTH
        &&& post.board.spec_height() == BOARD_H
        &&& forall|x: int, y: int|
            0 <= x < WIDTH && 0 <= y < BOARD_H && y != row ==> #[trigger] post.board.at(x, y)
                == pre.board.at(x, y)
        &&& forall|x: int| 0 <= x < WIDTH ==> #[trigger] post.board.at(x, row as int) is Empty
        &&& post.status == pre.status
        &&& post.current == pre.current
        &&& post.position == pre.position
        &&& post.lines == pre.lines
        &&& post.next == pre.next
        &&& post.points == pre.points
        &&& post.score_table == pre.score_table
        &&& post.drop_rate == pre.drop_rate
        &&& post.gravity_tick == pre.gravity_tick
        &&& post.speed == pre.speed
        &&& post.remaining == pre.remaining
        &&& post.save_pending == pre.save_pending
    } else {
        post == pre
    }
}

/// A difficulty change: the configured level moves and the gravity period
/// and level-progression counter restart from it.
pub open spec fn with_level(g: Tetris, lvl: u32) -> Tetris {
    Tetris {
        config: Config { btype: g.config.btype, level: lvl },
        speed: (MAX_LEVEL - lvl) as u32,
        remaining: ((lvl as int + 1) * (ADVANCE_SPEED as int)) as i32,
        ..g
    }
}

/// The menu's remaining intents, in order: drop starts a run, up raises the
/// level (clamped below the maximum), down lowers it (clamped at zero); each
/// consumed intent is cleared.
pub open spec fn menu_tail(g: Tetris) -> Tetris {
    let g1 = if g.input.drop {
        Tetris { status: Status::Active, input: InputState { drop: false, ..g.input }, ..g }
    } else {
        g
    };
    let g2 = if g1.input.up {
        let gu = Tetris { input: InputState { up: false, ..g1.input }, ..g1 };
        if g1.config.level < MAX_LEVEL - 1 {
            with_level(gu, (g1.config.level + 1) as u32)
        } else {
            gu
        }
    } else {
        g1
    };
    if g2.input.down {
        let gd = Tetris { input: InputState { down: false, ..g2.input }, ..g2 };
        if g2.config.level > 0 {
            with_level(gd, (g2.config.level - 1) as u32)
        } else {
            gd
        }
    } else {
        g2
    }
}

/// Menu: the cosmetic tick advances modulo 70; escape, next and prev leave
/// the game (clearing escape); otherwise the clutter and difficulty intents
/// apply in order.
pub open spec fn menu_step(pre: Tetris, post: Tetris, f: u32) -> bool {
    let pre1 = Tetris { status: Status::Menu((((f as int) + 1) % 70) as u32), ..pre };
    if pre.input.escape || pre.input.next || pre.input.prev {
        post == (Tetris { input: InputState { escape: false, ..pre.input }, ..pre1 })
    } else {
        exists|m1: Tetris, m2: Tetris|
            #![trigger menu_clutter_right(pre1, m1), menu_clutter_left(m1, m2)]
            menu_clutter_right(pre1, m1) && menu_clutter_left(m1, m2) && post == menu_tail(m2)
    }
}

/// The held left/right shift with autorepeat: the piece moves only on the
/// first frame of a hold or once the delay has elapsed, and only where the
/// board accepts it; the autorepeat counter advances up to its cap.
pub open spec fn shift_rel(pre: Tetris, post: Tetris) -> bool {
    let x = pre.position.0;
    let y = pre.position.1;
    let fire = pre.input.skip == 0 || pre.input.skip > KEY_DELAY;
    let bumped = if pre.input.skip <= KEY_DELAY {
        InputState { skip: (pre.input.skip + 1) as u32, ..pre.input }
    } else {
        pre.input
    };
    if pre.input.left {
        let go = fire && piece_fits(pre.board, pre.current, x - 1, y as int);
        post == (Tetris {
            position: if go {
                ((x - 1) as i32, y)
            } else {
                pre.position
            },
            input: bumped,
            ..pre
        })
    } else if pre.input.right {
        let go = fire && piece_fits(pre.board, pre.current, x + 1, y as int);
        post == (Tetris {
            position: if go {
                ((x + 1) as i32, y)
            } else {
                pre.position
            },
            input: bumped,
            ..pre
        })
    } else {
        post == pre
    }
}

/// The rotation intents: the right button tries one right rotation, the
/// left button or up tries a left rotation (three rights); a rotation the
/// board rejects leaves the variant unchanged, and the intent is consumed
/// either way.
pub open spec fn rotate_rel(pre: Tetris, post: Tetris) -> bool {
    let x = pre.position.0 as int;
    let y = pre.position.1 as int;
    if pre.input.button_b {
        let p2 = spec_rotate_r(pre.current);
        post == (Tetris {
            current: if piece_fits(pre.board, p2, x, y) {
                p2
            } else {
                pre.current
            },
            input: InputState { button_b: false, ..pre.input },
            ..pre
        })
    } else if pre.input.button_a || pre.input.up {
        let p2 = spec_rotate_r(spec_rotate_r(spec_rotate_r(pre.current)));
        post == (Tetris {
            current: if piece_fits(pre.board, p2, x, y) {
                p2
            } else {
                pre.current
            },
            input: InputState { button_a: false, up: false, ..pre.input },
            ..pre
        })
    } else {
        post == pre
    }
}

/// The descent for one frame: a drop intent (consumed) hard-drops; a held
/// down intent charges one bonus point and forces one step; otherwise the
/// drop bonus resets and gravity fires every `speed` frames.
pub open spec fn fall_rel(pre: Tetris, post: Tetris) -> bool {
    if pre.input.drop {
        hard_drop_rel(Tetris { input: InputState { drop: false, ..pre.input }, ..pre }, post)
    } else if pre.input.down {
        down_rel(Tetris { drop_rate: sat_add32(pre.drop_rate, 1), ..pre }, post)
    } else {
        let g2 = (((pre.gravity_tick as int) + 1) % (pre.speed as int)) as u32;
        let mid = Tetris { drop_rate: 0, gravity_tick: g2, ..pre };
        if g2 == 0 {
            down_rel(mid, post)
        } else {
            post == mid
        }
    }
}

/// Active: escape pauses; otherwise the frame applies the shift, rotation
/// and descent intents in that order.
pub open spec fn active_step(pre: Tetris, post: Tetris) -> bool {
    if pre.input.escape {
        post == (Tetris {
            status: Status::Paused,
            input: InputState { escape: false, ..pre.input },
            ..pre
        })
    } else {
        exists|m1: Tetris, m2: Tetris|
            #![trigger shift_rel(pre, m1), rotate_rel(m1, m2)]
            shift_rel(pre, m1) && rotate_rel(m1, m2) && fall_rel(m2, post)
    }
}

/// The whole per-frame transition, by lifecycle phase.
pub open spec fn tick_step(pre: Tetris, post: Tetris) -> bool {
    match pre.status {
        Status::Active => active_step(pre, post),
        Status::Paused => paused_step(pre, post),
        Status::Raising(f) => raising_step(pre, post, f),
        Status::Lowering(f) => lowering_step(pre, post, f),
        Status::Menu(f) => menu_step(pre, post, f),
        Status::Clearing(f) => clearing_step(pre, post, f),
        Status::Placing(_, _, _) => placing_step(pre, post),
    }
}

/// What the frame tells the driver: only the menu leaves the game, on
/// escape, next or prev, in that order of precedence.
pub open spec fn tick_result_spec(pre: Tetris) -> TickResult {
    match pre.status {
        Status::Menu(_) => if pre.input.escape {
            TickResult::Exit
        } else if pre.input.next {
            TickResult::NextGame
        } else if pre.input.prev {
            TickResult::PrevGame
        } else {
            TickResult::Continue
        },
        _ => TickResult::Continue,
    }
}

impl Tetris {
    /// Try to move the falling piece one column left.
    pub fn left(&mut self)
        requires
            old(self).wf(),
        ensures
            final(self).wf(),
            *final(self) == (Tetris {
                position: if piece_fits(
                    old(self).board,
                    old(self).current,
                    old(self).position.0 - 1,
                    old(self).position.1 as int,
                ) {
                    ((old(self).position.0 - 1) as i32, old(self).position.1)
                } else {
                    old(self).position
                },
                ..*old(self)
            }),
    {
        let (x, y) = self.position;
        self.move_piece(x - 1, y);
    }

    /// Try to move the falling piece one column right.
    pub fn right(&mut self)
        requires
            old(self).wf(),
        ensures
            final(self).wf(),
            *final(self) == (Tetris {
                position: if piece_fits(
                    old(self).board,
                    old(self).current,
                    old(self).position.0 + 1,
                    old(self).position.1 as int,
                ) {
                    ((old(self).position.0 + 1) as i32, old(self).position.1)
                } else {
                    old(self).position
                },
                ..*old(self)
            }),
    {
        let (x, y) = self.position;
        self.move_piece(x + 1, y);
    }

    /// Try to rotate the falling piece one step right, keeping the current
    /// variant if the board rejects the rotation.
    pub fn rotate_r(&mut self)
        requires
            old(self).wf(),
        ensures
            final(self).wf(),
            *final(self) == (Tetris {
                current: if piece_fits(
                    old(self).board,
                    spec_rotate_r(old(self).current),
                    old(self).position.0 as int,
                    old(self).position.1 as int,
                ) {
                    spec_rotate_r(old(self).current)
                } else {
                    old(self).current
                },
                ..*old(self)
            }),
    {
        let p = self.current.rotate_r();
        self.switch_piece(p);
    }

    /// Try to rotate the falling piece one step left (three right
    /// rotations), keeping the current variant if the board rejects it.
    pub fn rotate_l(&mut self)
        requires
            old(self).wf(),
        ensures
            final(self).wf(),
            *final(self) == (Tetris {
                current: if piece_fits(
                    old(self).board,
                    spec_rotate_r(spec_rotate_r(spec_rotate_r(old(self).current))),
                    old(self).position.0 as int,
                    old(self).position.1 as int,
                ) {
                    spec_rotate_r(spec_rotate_r(spec_rotate_r(old(self).current)))
                } else {
                    old(self).current
                },
                ..*old(self)
            }),
    {
        let p = self.current.rotate_l();
        self.switch_piece(p);
    }
}

/// On an all-empty board the spawn position accepts every variant and the
/// spawn buffer is clear.
proof fn lemma_spawn_fits_empty(board: Imprint<()>, p: Piece)
    requires
        board.wf(),
        board.spec_width() == WIDTH,
        board.spec_height() == BOARD_H,
        forall|x: int, y: int|
            0 <= x < WIDTH && 0 <= y < BOARD_H ==> #[trigger] board.at(x, y) is Empty,
    ensures
        piece_fits(board, p, spawn_pos(p).0 as int, spawn_pos(p).1 as int),
        buffer_clear(board),
{
    let x0 = spawn_pos(p).0 as int;
    let y0 = spawn_pos(p).1 as int;
    assert(footprint_size(p) == 3 || footprint_size(p) == 4);
    assert forall|x: int, y: int|
        0 <= x < footprint_size(p) && 0 <= y < footprint_size(p) && #[trigger] footprint_at(
            p,
            x,
            y,
        ) implies board.in_bounds(x0 + x, y0 + y) && board.at(x0 + x, y0 + y) is Empty by {
        assert(0 <= x0 + x < WIDTH);
        assert(0 <= y0 + y < BOARD_H);
    }
}

impl Tetris {
    /// A fresh game over a loaded best-score table: the menu showing, an
    /// empty board, level and clutter at zero, and random pieces buffered.
    pub fn new(score_table: ScoreTable) -> (g: Tetris)
        requires
            score_table.wf(),
            score_table.spec_levels() == MAX_LEVEL,
            score_table.spec_variants() == MAX_BTYPE + 1,
        ensures
            g.wf(),
            g.status == Status::Menu(0),
            g.config == (Config { btype: 0, level: 0 }),
            g.points == 0,
            g.score_table == score_table,
            g.save_pending == false,
            is_base_variant(g.current),
            is_base_variant(g.next),
            g.position == spawn_pos(g.current),
            forall|x: int, y: int|
                0 <= x < WIDTH && 0 <= y < BOARD_H ==> #[trigger] g.board.at(x, y) is Empty,
            g.speed == MAX_LEVEL,
            g.gravity_tick == 0,
            g.drop_rate == 0,
            g.remaining == ADVANCE_SPEED,
            g.lines@.len() == 0,
            g.input == (InputState {
                escape: false,
                down: false,
                up: false,
                left: false,
                right: false,
                button_a: false,
                button_b: false,
                drop: false,
                next: false,
                prev: false,
                skip: 0,
            }),
    {
        let mut g = Tetris {
            config: Config { btype: 0, level: 0 },
            status: Status::Menu(0),
            board: Imprint::empty(WIDTH, BOARD_H),
            gravity_tick: 0,
            speed: MAX_LEVEL,
            remaining: ADVANCE_SPEED,
            drop_rate: 0,
            current: Piece::I2,
            next: Piece::I2,
            position: (0, 0),
            points: 0,
            score_table,
            input: InputState::new(),
            lines: Vec::new(),
            save_pending: false,
        };
        let ghost s0 = g;
        g.new_piece();
        let ghost s1 = g;
        proof {
            lemma_spawn_fits_empty(s0.board, s0.next);
        }
        g.new_piece();
        proof {
            lemma_spawn_fits_empty(s1.board, s1.next);
        }
        g
    }

    /// The active-phase frame (see `active_step`).
    #[verifier::rlimit(100)]
    #[verifier::spinoff_prover]
    /// The held left/right shift with autorepeat (see `shift_rel`).
    fn step_shift(&mut self)
        requires
            old(self).wf(),
            old(self).status == Status::Active,
        ensures
            final(self).wf(),
            final(self).status == Status::Active,
            shift_rel(*old(self), *final(self)),
    {
        if self.input.left {
            if self.input.skip == 0 || self.input.skip > KEY_DELAY {
                self.left();
            }
            if self.input.skip <= KEY_DELAY {
                self.input.skip = self.input.skip + 1;
            }
        } else if self.input.right {
            if self.input.skip == 0 || self.input.skip > KEY_DELAY {
                self.right();
            }
            if self.input.skip <= KEY_DELAY {
                self.input.skip = self.input.skip + 1;
            }
        }
    }

    /// The rotation intents (see `rotate_rel`).
    fn step_rotate(&mut self)
        requires
            old(self).wf(),
            old(self).status == Status::Active,
        ensures
            final(self).wf(),
            final(self).status == Status::Active,
            rotate_rel(*old(self), *final(self)),
    {
        if self.input.button_b {
            self.rotate_r();
            self.input.button_b = false;
        } else if self.input.button_a || self.input.up {
            self.rotate_l();
            self.input.button_a = false;
            self.input.up = false;
        }
    }

    /// The drop, forced-descent or gravity step for one frame (see
    /// `fall_rel`).
    fn step_fall(&mut self)
        requires
            old(self).wf(),
            old(self).status == Status::Active,
        ensures
            final(self).wf(),
            fall_rel(*old(self), *final(self)),
    {
        if self.input.drop {
            self.input.drop = false;
            self.hard_drop();
        } else if self.input.down {
            self.drop_rate = sat_add(self.drop_rate, 1);
            self.down();
        } else {
            self.drop_rate = 0;
            self.gravity_tick = (self.gravity_tick + 1) % self.speed;
            if self.gravity_tick == 0 {
                self.down();
            }
        }
    }

    fn tick_active(&mut self)
        requires
            old(self).wf(),
            old(self).status == Status::Active,
        ensures
            final(self).wf(),
            active_step(*old(self), *final(self)),
    {
        if self.input.escape {
            self.status = Status::Paused;
            self.input.escape = false;
        } else {
            let ghost pre0 = *self;
            self.step_shift();
            let ghost m1 = *self;
            self.step_rotate();
            let ghost m2 = *self;
            self.step_fall();
            proof {
                assert(shift_rel(pre0, m1) && rotate_rel(m1, m2) && fall_rel(m2, *self));
                assert(active_step(pre0, *self));
            }
        }
    }

    /// The menu's clutter-row increase (see `menu_clutter_right`).
    fn menu_clutter_add(&mut self)
        requires
            old(self).wf(),
        ensures
            final(self).wf(),
            menu_clutter_right(*old(self), *final(self)),
    {
        if self.input.right && self.config.btype < MAX_BTYPE {
            self.input.right = false;
            let top = BOARD_H - 1 - (self.config.btype as usize);
            self.board.random_line(top, Cell::Filled(()));
            self.config.btype = self.config.btype + 1;
        }
    }

    /// The menu's clutter-row decrease (see `menu_clutter_left`).
    fn menu_clutter_remove(&mut self)
        requires
            old(self).wf(),
        ensures
            final(self).wf(),
            menu_clutter_left(*old(self), *final(self)),
    {
        if self.input.left && self.config.btype > 0 {
            self.input.left = false;
            self.config.btype = self.config.btype - 1;
            let top = BOARD_H - 1 - (self.config.btype as usize);
            self.board.clear_line(top);
        }
    }

    /// The menu frame (see `menu_step` and `tick_result_spec`).
    #[verifier::rlimit(100)]
    #[verifier::spinoff_prover]
    fn tick_menu(&mut self, f: u32) -> (r: TickResult)
        requires
            old(self).wf(),
            old(self).status == Status::Menu(f),
        ensures
            final(self).wf(),
            menu_step(*old(self), *final(self), f),
            r == tick_result_spec(*old(self)),
    {
                self.status = Status::Menu((f + 1) % 70);
                if self.input.escape {
                    self.input.escape = false;
                    return TickResult::Exit;
                }
                if self.input.next {
                    self.input.escape = false;
                    return TickResult::NextGame;
                }
                if self.input.prev {
                    self.input.escape = false;
                    return TickResult::PrevGame;
                }
                let ghost pre1 = *self;
                self.menu_clutter_add();
                let ghost m1 = *self;
                self.menu_clutter_remove();
                let ghost m2 = *self;
                proof {
                    assert(menu_clutter_right(pre1, m1) && menu_clutter_left(m1, m2));
                }
                if self.input.drop {
                    self.input.drop = false;
                    self.status = Status::Active;
                }
                if self.input.up {
                    self.input.up = false;
                    if self.config.level < MAX_LEVEL - 1 {
                        self.config.level = self.config.level + 1;
                        self.speed = MAX_LEVEL - self.config.level;
                        self.remaining = ((self.config.level + 1) as i32) * ADVANCE_SPEED;
                    }
                }
                if self.input.down {
                    self.input.down = false;
                    if self.config.level > 0 {
                        self.config.level = self.config.level - 1;
                        self.speed = MAX_LEVEL - self.config.level;
                        self.remaining = ((self.config.level + 1) as i32) * ADVANCE_SPEED;
                    }
                }
                proof {
                    assert(*self == menu_tail(m2));
                }
        TickResult::Continue
    }

    /// The clearing-phase frame (see `clearing_step`).
    fn tick_clearing(&mut self, f: i32)
        requires
            old(self).wf(),
            old(self).status == Status::Clearing(f),
        ensures
            final(self).wf(),
            clearing_step(*old(self), *final(self), f),
    {
        if f == 0 {
            let n = self.lines.len();
            proof {
                lemma_ascending_bounded_len(self.lines@, BOARD_H as int);
            }
            self.award_points(n as u32);
            self.board.clear_lines(&mut self.lines);
            self.status = Status::Active;
            self.new_piece();
        } else {
            self.status = Status::Clearing(f - 1);
        }
    }

    /// One frame of simulation: consume the buffered intents for the current
    /// lifecycle phase, advance the world, and tell the driver whether to
    /// continue, exit, or switch game.
    pub fn tick(&mut self) -> (r: TickResult)
        requires
            old(self).wf(),
        ensures
            final(self).wf(),
            r == tick_result_spec(*old(self)),
            tick_step(*old(self), *final(self)),
    {
        match self.status {
            Status::Active => {
                self.tick_active();
            },
            Status::Paused => {
                if self.input.drop || self.input.button_a || self.input.button_b
                    || self.input.left || self.input.right || self.input.down || self.input.up {
                    self.status = Status::Active;
                } else if self.input.escape {
                    self.input.escape = false;
                    self.status = Status::Raising(BOARD_H);
                }
            },
            Status::Raising(f) => {
                if f == BUFFER {
                    self.new_game();
                    self.status = Status::Lowering(BUFFER);
                } else {
                    self.status = Status::Raising(f - 1);
                }
            },
            Status::Lowering(f) => {
                if f == BOARD_H {
                    self.status = Status::Menu(0);
                } else {
                    self.status = Status::Lowering(f + 1);
                }
            },
            Status::Menu(f) => {
                return self.tick_menu(f);
            },
            Status::Clearing(f) => {
                self.tick_clearing(f);
            },
            Status::Placing(_, _, _) => {
                self.status = Status::Active;
                self.new_piece();
            },
        }
        TickResult::Continue
    }

    /// The level reached, counted up from the starting gravity period.
    pub fn current_level(&self) -> (r: u32)
        requires
            self.wf(),
        ensures
            r == MAX_LEVEL - self.speed,
    {
        MAX_LEVEL - self.speed
    }

    /// The running score.
    pub fn score(&self) -> (r: u32)
        ensures
            r == self.points,
    {
        self.points
    }

    /// The stored best score for the current configuration.
    pub fn top_score(&self) -> (r: u32)
        requires
            self.wf(),
        ensures
            r == self.score_table.score_at(self.config.level as int, self.config.btype as int),
    {
        self.score_table.get_top_score(self.config.level as usize, self.config.btype as usize)
    }

    /// The upcoming piece's footprint, hidden while the menu is showing.
    pub fn next_preview(&self) -> (r: Option<Imprint<()>>)
        ensures
            (r is None) == (self.status is Menu),
            r matches Some(fp) ==> is_footprint_of(fp, self.next),
    {
        match self.status {
            Status::Menu(_) => None,
            _ => Some(self.next.imprint()),
        }
    }

    /// Whether the game is paused.
    pub fn is_paused(&self) -> (r: bool)
        ensures
            r == (self.status is Paused),
    {
        match self.status {
            Status::Paused => true,
            _ => false,
        }
    }

    /// The serialized best-score table, handed out once after each
    /// improvement for the caller to write to the store.
    pub fn take_save_request(&mut self) -> (r: Option<Vec<u8>>)
        requires
            old(self).wf(),
        ensures
            *final(self) == (Tetris { save_pending: false, ..*old(self) }),
            (r is Some) == old(self).save_pending,
            r matches Some(bytes) ==> crate::score_table::table_encoded(
                old(self).score_table,
                bytes@,
            ),
    {
        if self.save_pending {
            self.save_pending = false;
            Some(self.score_table.to_bytes())
        } else {
            None
        }
    }
}

impl crate::game::Game for Tetris {
    type CellData = ();

    open spec fn inv(&self) -> bool {
        self.wf()
    }

    fn current_level(&self) -> u32 {
        Tetris::current_level(self)
    }

    fn score(&self) -> u32 {
        Tetris::score(self)
    }

    fn top_score(&self) -> u32 {
        Tetris::top_score(self)
    }

    fn board(&self) -> &Imprint<()> {
        &self.board
    }

    fn next(&self) -> Option<Imprint<()>> {
        self.next_preview()
    }

    fn tick(&mut self) -> TickResult {
        Tetris::tick(self)
    }

    fn is_paused(&self) -> bool {
        Tetris::is_paused(self)
    }

    fn input_state(&mut self) -> &mut InputState {
        &mut self.input
    }

    fn take_save_request(&mut self) -> Option<Vec<u8>> {
        Tetris::take_save_request(self)
    }
}

} // verus!
