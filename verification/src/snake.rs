//! The snake game: a growing snake over a 10 x 20 wrapping grid whose body
//! segments live in the grid cells (each remembering its travel direction),
//! a food item, a timed bonus item that comes and goes, and the shared
//! menu / pause / raising / lowering lifecycle over selectable board
//! layouts.

use crate::game::{sat_add, sat_add32, InputState, TickResult};
use crate::imprint::{Cell, Imprint};
use crate::score_table::{table_bumped, ScoreTable};
use vstd::prelude::*;

verus! {

pub const WIDTH: usize = 10;

pub const HEIGHT: usize = 20;

pub const MAX_LEVEL: u32 = crate::FRAMERATE;

/// Steps the bonus item stays on the board once spawned.
pub const BONUS_TIME: u32 = 24;

/// Steps between one bonus item leaving and the next appearing.
pub const NO_BONUS_TIME: u32 = 32;

/// The difficulty pair keying the best-score table: board layout and level.
#[derive(Debug, Copy, Clone, PartialEq, Eq, Structural)]
pub struct Config {
    pub field: u32,
    pub level: u32,
}

/// The game's lifecycle phase.
#[derive(Debug, Copy, Clone, PartialEq, Eq, Structural)]
pub enum Status {
    Active,
    Paused,
    Raising(usize),
    Lowering(usize),
    Menu(u32),
}

/// A travel direction; body segments record the direction the snake left
/// their cell in, chaining tail to head.
#[derive(Debug, Copy, Clone, PartialEq, Eq, Structural)]
pub enum Direction {
    Up,
    Down,
    Left,
    Right,
}

/// What a filled cell holds: a snake segment or a layout wall.
#[derive(Debug, Copy, Clone, PartialEq, Eq, Structural)]
pub enum CellData {
    Snake(Direction),
    Wall,
}

pub open spec fn spec_turn_left(d: Direction) -> Direction {
    match d {
        Direction::Up => Direction::Left,
        Direction::Down => Direction::Right,
        Direction::Left => Direction::Down,
        Direction::Right => Direction::Up,
    }
}

pub open spec fn spec_turn_right(d: Direction) -> Direction {
    match d {
        Direction::Up => Direction::Right,
        Direction::Down => Direction::Left,
        Direction::Left => Direction::Up,
        Direction::Right => Direction::Down,
    }
}

impl Direction {
    /// The direction a quarter turn counter-clockwise away.
    pub fn turn_left(&self) -> (r: Direction)
        ensures
            r == spec_turn_left(*self),
    {
        match *self {
            Direction::Up => Direction::Left,
            Direction::Down => Direction::Right,
            Direction::Left => Direction::Down,
            Direction::Right => Direction::Up,
        }
    }

    /// The direction a quarter turn clockwise away.
    pub fn turn_right(&self) -> (r: Direction)
        ensures
            r == spec_turn_right(*self),
    {
        match *self {
            Direction::Up => Direction::Right,
            Direction::Down => Direction::Left,
            Direction::Left => Direction::Up,
            Direction::Right => Direction::Down,
        }
    }
}

/// One step from `p` along `d`, wrapping at the board edges.
pub open spec fn spec_move_dir(p: (usize, usize), d: Direction) -> (usize, usize) {
    let x = p.0 as int;
    let y = p.1 as int;
    let rx: int = match d {
        Direction::Up | Direction::Down => x,
        Direction::Left => if x == 0 {
            WIDTH - 1
        } else {
            x - 1
        },
        Direction::Right => (x + 1) % (WIDTH as int),
    };
    let ry: int = match d {
        Direction::Left | Direction::Right => y,
        Direction::Up => if y == 0 {
            HEIGHT - 1
        } else {
            y - 1
        },
        Direction::Down => (y + 1) % (HEIGHT as int),
    };
    (rx as usize, ry as usize)
}

/// One wrapping step along `d` (see `spec_move_dir`); always lands in
/// bounds, on a different cell.
pub fn move_dir(p: (usize, usize), d: Direction) -> (r: (usize, usize))
    requires
        p.0 < WIDTH,
        p.1 < HEIGHT,
    ensures
        r == spec_move_dir(p, d),
        r.0 < WIDTH,
        r.1 < HEIGHT,
        r != p,
{
    let (x, y) = p;
    let rx = match d {
        Direction::Up | Direction::Down => x,
        Direction::Left => if x == 0 {
            WIDTH - 1
        } else {
            x - 1
        },
        Direction::Right => (x + 1) % WIDTH,
    };
    let ry = match d {
        Direction::Left | Direction::Right => y,
        Direction::Up => if y == 0 {
            HEIGHT - 1
        } else {
            y - 1
        },
        Direction::Down => (y + 1) % HEIGHT,
    };
    (rx, ry)
}

/// The snake game's whole state: grid with embedded body, the moving ends,
/// the food and bonus items, score, buffered input and best-score table.
pub struct Snake {
    pub config: Config,
    pub status: Status,
    pub head_position: (usize, usize),
    pub direction: Direction,
    pub food_position: (usize, usize),
    pub bonus_position: Option<(usize, usize)>,
    pub anim_tick: u32,
    pub movement_tick: u32,
    pub tail_position: (usize, usize),
    pub input: InputState,
    pub board: Imprint<CellData>,
    pub points: u32,
    pub score_table: ScoreTable,
    pub speed: u32,
    pub growth: u32,
    pub bonus_timer: u32,
    pub save_pending: bool,
}

/// `q` is a cell a spawned item may use: empty and away from `a1` and `a2`.
pub open spec fn free_cell(
    board: Imprint<CellData>,
    a1: (usize, usize),
    a2: (usize, usize),
    q: (usize, usize),
) -> bool {
    q.0 < WIDTH && q.1 < HEIGHT && board.at(q.0 as int, q.1 as int) is Empty && q != a1 && q != a2
}

/// What every outcome of the free-spot search satisfies: in bounds, and
/// genuinely free whenever any free cell exists at all.
pub open spec fn spot_ok(
    board: Imprint<CellData>,
    a1: (usize, usize),
    a2: (usize, usize),
    p: (usize, usize),
) -> bool {
    &&& p.0 < WIDTH
    &&& p.1 < HEIGHT
    &&& (exists|q: (usize, usize)| #[trigger] free_cell(board, a1, a2, q)) ==> free_cell(
        board,
        a1,
        a2,
        p,
    )
}

impl Snake {
    /// Structural soundness: dimensions, counter ranges, and every tracked
    /// position on the board.
    pub open spec fn wf(self) -> bool {
        &&& self.board.wf()
        &&& self.board.spec_width() == WIDTH
        &&& self.board.spec_height() == HEIGHT
        &&& self.score_table.wf()
        &&& self.score_table.spec_levels() == MAX_LEVEL
        &&& self.score_table.spec_variants() == crate::fields::MAX_FIELDS
        &&& self.config.level < MAX_LEVEL
        &&& self.config.field < crate::fields::MAX_FIELDS
        &&& 1 <= self.speed <= MAX_LEVEL
        &&& self.movement_tick < MAX_LEVEL
        &&& self.anim_tick < 4
        &&& self.head_position.0 < WIDTH && self.head_position.1 < HEIGHT
        &&& self.tail_position.0 < WIDTH && self.tail_position.1 < HEIGHT
        &&& self.food_position.0 < WIDTH && self.food_position.1 < HEIGHT
        &&& (self.bonus_position matches Some(p) ==> p.0 < WIDTH && p.1 < HEIGHT)
        &&& 1 <= self.bonus_timer <= NO_BONUS_TIME
        &&& match self.status {
            Status::Raising(f) => f <= HEIGHT,
            Status::Lowering(f) => f <= HEIGHT,
            Status::Menu(f) => f < 70,
            _ => true,
        }
    }
}

/// The bonus countdown for one step: it ticks down; at zero an active bonus
/// leaves (and the quiet window restarts) or, in a quiet window, a bonus
/// spawns on a free cell (and the active window restarts).
pub open spec fn bonus_phase_ok(pre: Snake, b1: Option<(usize, usize)>, t2: u32) -> bool {
    if pre.bonus_timer == 1 {
        match pre.bonus_position {
            Some(_) => b1 is None && t2 == NO_BONUS_TIME,
            None => (b1 matches Some(p) && spot_ok(
                pre.board,
                pre.head_position,
                pre.food_position,
                p,
            )) && t2 == BONUS_TIME,
        }
    } else {
        b1 == pre.bonus_position && t2 == ((pre.bonus_timer - 1) as u32)
    }
}

/// The board after the head cell is re-stamped with the current direction
/// (the state food is spawned against).
pub open spec fn board1_at(pre: Snake, x: int, y: int) -> Cell<CellData> {
    if x == pre.head_position.0 && y == pre.head_position.1 {
        Cell::Filled(CellData::Snake(pre.direction))
    } else {
        pre.board.at(x, y)
    }
}

/// `q` is free for the food respawn: empty on the head-stamped board and
/// away from the (old) head and food.
pub open spec fn food_free(pre: Snake, q: (usize, usize)) -> bool {
    q.0 < WIDTH && q.1 < HEIGHT && board1_at(pre, q.0 as int, q.1 as int) is Empty && q
        != pre.head_position && q != pre.food_position
}

/// What every outcome of the food respawn satisfies.
pub open spec fn food_spot_ok(pre: Snake, p: (usize, usize)) -> bool {
    &&& p.0 < WIDTH
    &&& p.1 < HEIGHT
    &&& (exists|q: (usize, usize)| #[trigger] food_free(pre, q)) ==> food_free(pre, p)
}

/// One forced movement step. The bonus countdown runs first; the head cell
/// is re-stamped with the travel direction; then the snake moves one
/// wrapping step. Entering an occupied cell ends the run (`Raising(0)`).
/// Otherwise the head advances (eating food scores, grows the snake and
/// respawns the food; reaching the bonus scores its timer-weighted value),
/// and the tail retracts one segment unless growth is still pending.
pub open spec fn advance_rel(pre: Snake, post: Snake) -> bool {
    let head = pre.head_position;
    let dir = pre.direction;
    let nl = spec_move_dir(head, dir);
    exists|b1: Option<(usize, usize)>, t2: u32, f1: (usize, usize)|
        #![trigger bonus_phase_ok(pre, b1, t2), food_spot_ok(pre, f1)]
        {
            &&& bonus_phase_ok(pre, b1, t2)
            &&& if !(pre.board.at(nl.0 as int, nl.1 as int) is Empty) {
                &&& post.status == Status::Raising(0)
                &&& post.bonus_position == b1
                &&& post.bonus_timer == t2
                &&& forall|x: int, y: int|
                    0 <= x < WIDTH && 0 <= y < HEIGHT ==> #[trigger] post.board.at(x, y) == (if x
                        == head.0 && y == head.1 {
                        Cell::Filled(CellData::Snake(dir))
                    } else {
                        pre.board.at(x, y)
                    })
                &&& post.board.wf() && post.board.spec_width() == WIDTH
                    && post.board.spec_height() == HEIGHT
                &&& post.head_position == pre.head_position
                &&& post.tail_position == pre.tail_position
                &&& post.food_position == pre.food_position
                &&& post.direction == dir
                &&& post.points == pre.points
                &&& post.growth == pre.growth
                &&& post.config == pre.config
                &&& post.speed == pre.speed
                &&& post.movement_tick == pre.movement_tick
                &&& post.anim_tick == pre.anim_tick
                &&& post.input == pre.input
                &&& post.score_table == pre.score_table
                &&& post.save_pending == pre.save_pending
            } else {
                let eaten = nl == pre.food_position;
                let pts1 = if eaten {
                    sat_add32(pre.points, (MAX_LEVEL - pre.speed + 1) as u32)
                } else {
                    pre.points
                };
                let grw1 = if eaten {
                    sat_add32(pre.growth, 1)
                } else {
                    pre.growth
                };
                let hitb = (b1 == Some(nl));
                let pts2 = if hitb {
                    sat_add32(pts1, (((t2 as int) * 4) + 4) as u32)
                } else {
                    pts1
                };
                let tl = pre.tail_position;
                let b2t = if tl == nl || tl == head {
                    Cell::Filled(CellData::Snake(dir))
                } else {
                    pre.board.at(tl.0 as int, tl.1 as int)
                };
                let retract = grw1 == 0 && (b2t matches Cell::Filled(CellData::Snake(_)));
                &&& post.status == pre.status
                &&& post.head_position == nl
                &&& post.direction == dir
                &&& post.points == pts2
                &&& post.growth == (if grw1 > 0 {
                    (grw1 - 1) as u32
                } else {
                    grw1
                })
                &&& post.bonus_position == (if hitb {
                    None
                } else {
                    b1
                })
                &&& post.bonus_timer == (if hitb {
                    NO_BONUS_TIME
                } else {
                    t2
                })
                &&& (eaten ==> (food_spot_ok(pre, f1) && post.food_position == f1))
                &&& (!eaten ==> post.food_position == pre.food_position)
                &&& post.tail_position == (match b2t {
                    Cell::Filled(CellData::Snake(d)) => if grw1 == 0 {
                        spec_move_dir(tl, d)
                    } else {
                        tl
                    },
                    _ => tl,
                })
                &&& forall|x: int, y: int|
                    0 <= x < WIDTH && 0 <= y < HEIGHT ==> #[trigger] post.board.at(x, y) == (
                    if retract && x == tl.0 && y == tl.1 {
                        Cell::Empty
                    } else if (x == nl.0 && y == nl.1) || (x == head.0 && y == head.1) {
                        Cell::Filled(CellData::Snake(dir))
                    } else {
                        pre.board.at(x, y)
                    })
                &&& post.board.wf() && post.board.spec_width() == WIDTH
                    && post.board.spec_height() == HEIGHT
                &&& post.config == pre.config
                &&& post.speed == pre.speed
                &&& post.movement_tick == pre.movement_tick
                &&& post.anim_tick == pre.anim_tick
                &&& post.input == pre.input
                &&& post.score_table == pre.score_table
                &&& post.save_pending == pre.save_pending
            }
        }
}

/// One steering attempt: a 180-degree reversal relative to the segment
/// recorded at the head cell is rejected; anything else is taken.
pub open spec fn steer1(cell: Cell<CellData>, cur: Direction, want: Direction) -> Direction {
    match cell {
        Cell::Filled(CellData::Snake(d2)) => if want == spec_turn_right(spec_turn_right(d2)) {
            cur
        } else {
            want
        },
        _ => want,
    }
}

/// All of one frame's steering intents applied in order: the four absolute
/// directions, then the two relative turn buttons.
pub open spec fn steered(pre: Snake) -> Direction {
    let cell = pre.board.at(pre.head_position.0 as int, pre.head_position.1 as int);
    let d0 = pre.direction;
    let d1 = if pre.input.left {
        steer1(cell, d0, Direction::Left)
    } else {
        d0
    };
    let d2 = if pre.input.right {
        steer1(cell, d1, Direction::Right)
    } else {
        d1
    };
    let d3 = if pre.input.up {
        steer1(cell, d2, Direction::Up)
    } else {
        d2
    };
    let d4 = if pre.input.down {
        steer1(cell, d3, Direction::Down)
    } else {
        d3
    };
    let d5 = if pre.input.button_a {
        steer1(cell, d4, spec_turn_left(d4))
    } else {
        d4
    };
    if pre.input.button_b {
        steer1(cell, d5, spec_turn_right(d5))
    } else {
        d5
    }
}

/// Active: escape pauses; otherwise steering applies, the snake advances
/// one step on movement frames, and the movement and animation counters
/// run.
pub open spec fn active_step(pre: Snake, post: Snake) -> bool {
    if pre.input.escape {
        post == (Snake {
            status: Status::Paused,
            input: InputState { escape: false, ..pre.input },
            ..pre
        })
    } else {
        let mid = Snake { direction: steered(pre), ..pre };
        let mt2 = (((pre.movement_tick as int) + 1) % (pre.speed as int)) as u32;
        let at2 = (((pre.anim_tick as int) + 1) % 4) as u32;
        &&& post.movement_tick == mt2
        &&& post.anim_tick == at2
        &&& if pre.movement_tick == 0 {
            advance_rel(
                mid,
                Snake { movement_tick: mid.movement_tick, anim_tick: mid.anim_tick, ..post },
            )
        } else {
            post == (Snake { movement_tick: mt2, anim_tick: at2, ..mid })
        }
    }
}

/// Paused: any movement or action intent resumes; escape gives the run up.
pub open spec fn paused_step(pre: Snake, post: Snake) -> bool {
    if pre.input.drop || pre.input.button_a || pre.input.button_b || pre.input.left
        || pre.input.right || pre.input.down || pre.input.up {
        post == (Snake { status: Status::Active, ..pre })
    } else if pre.input.escape {
        post == (Snake {
            status: Status::Raising(0),
            input: InputState { escape: false, ..pre.input },
            ..pre
        })
    } else {
        post == pre
    }
}

/// The whole-run reset: the ended run's score is folded into the table
/// (flagging a store rewrite on improvement), the configured layout is
/// rebuilt, the snake recoils to the center heading right, and food, bonus
/// window, growth and speed restart. The lifecycle phase is the caller's
/// business.
pub open spec fn new_game_core(pre: Snake, post: Snake) -> bool {
    &&& table_bumped(
        pre.score_table,
        post.score_table,
        pre.config.level as int,
        pre.config.field as int,
        pre.points,
    )
    &&& post.save_pending == (pre.save_pending || pre.points > pre.score_table.score_at(
        pre.config.level as int,
        pre.config.field as int,
    ))
    &&& post.board.wf() && post.board.spec_width() == WIDTH && post.board.spec_height() == HEIGHT
    &&& forall|x: int, y: int|
        0 <= x < WIDTH && 0 <= y < HEIGHT ==> #[trigger] post.board.at(x, y) == (
        if crate::fields::field_wall(pre.config.field as int, x, y) {
            Cell::Filled(CellData::Wall)
        } else {
            Cell::<CellData>::Empty
        })
    &&& post.direction == Direction::Right
    &&& post.head_position == ((WIDTH / 2) as usize, (HEIGHT / 2) as usize)
    &&& post.tail_position == ((WIDTH / 2) as usize, (HEIGHT / 2) as usize)
    &&& post.bonus_position is None
    &&& post.growth == 3
    &&& spot_ok(post.board, post.head_position, pre.food_position, post.food_position)
    &&& post.bonus_timer == NO_BONUS_TIME
    &&& post.points == 0
    &&& post.speed == MAX_LEVEL - pre.config.level
    &&& post.config == pre.config
    &&& post.input == pre.input
    &&& post.movement_tick == pre.movement_tick
    &&& post.anim_tick == pre.anim_tick
}

/// Raising: the curtain runs up to the full height, where the whole-run
/// reset happens and the lowering animation starts.
pub open spec fn raising_step(pre: Snake, post: Snake, f: usize) -> bool {
    if f == HEIGHT {
        new_game_core(pre, post) && post.status == Status::Lowering(HEIGHT)
    } else {
        post == (Snake { status: Status::Raising((f + 1) as usize), ..pre })
    }
}

/// Lowering: the curtain runs back down to zero, then the menu takes over.
pub open spec fn lowering_step(pre: Snake, post: Snake, f: usize) -> bool {
    if f == 0 {
        post == (Snake { status: Status::Menu(0), ..pre })
    } else {
        post == (Snake { status: Status::Lowering((f - 1) as usize), ..pre })
    }
}

/// The menu's layout switch to the right: the next layout (cyclically) is
/// selected and the game resets onto it.
pub open spec fn menu_field_right(pre: Snake, post: Snake) -> bool {
    if pre.input.right {
        let mid = Snake {
            config: Config {
                field: (((pre.config.field as int) + 1) % (crate::fields::MAX_FIELDS as int)) as u32,
                level: pre.config.level,
            },
            input: InputState { right: false, ..pre.input },
            ..pre
        };
        new_game_core(mid, post) && post.status == pre.status
    } else {
        post == pre
    }
}

/// The menu's layout switch to the left: the previous layout (cyclically)
/// is selected and the game resets onto it.
pub open spec fn menu_field_left(pre: Snake, post: Snake) -> bool {
    if pre.input.left {
        let mid = Snake {
            config: Config {
                field: if pre.config.field == 0 {
                    (crate::fields::MAX_FIELDS - 1) as u32
                } else {
                    (pre.config.field - 1) as u32
                },
                level: pre.config.level,
            },
            input: InputState { left: false, ..pre.input },
            ..pre
        };
        new_game_core(mid, post) && post.status == pre.status
    } else {
        post == pre
    }
}

/// The menu's remaining intents, in order: drop starts a run, up raises the
/// level, down lowers it; the gravity period follows the level.
pub open spec fn menu_tail(g: Snake) -> Snake {
    let g1 = if g.input.drop {
        Snake { status: Status::Active, input: InputState { drop: false, ..g.input }, ..g }
    } else {
        g
    };
    let g2 = if g1.input.up {
        let gu = Snake { input: InputState { up: false, ..g1.input }, ..g1 };
        if g1.config.level < MAX_LEVEL - 1 {
            Snake {
                config: Config { field: g1.config.field, level: (g1.config.level + 1) as u32 },
                speed: (MAX_LEVEL - (g1.config.level + 1)) as u32,
                ..gu
            }
        } else {
            gu
        }
    } else {
        g1
    };
    if g2.input.down {
        let gd = Snake { input: InputState { down: false, ..g2.input }, ..g2 };
        if g2.config.level > 0 {
            Snake {
                config: Config { field: g2.config.field, level: (g2.config.level - 1) as u32 },
                speed: (MAX_LEVEL - (g2.config.level - 1)) as u32,
                ..gd
            }
        } else {
            gd
        }
    } else {
        g2
    }
}

/// Menu: the cosmetic tick advances modulo 70; escape, next and prev leave
/// the game (clearing escape); otherwise the layout and difficulty intents
/// apply in order.
pub open spec fn menu_step(pre: Snake, post: Snake, f: u32) -> bool {
    let pre1 = Snake { status: Status::Menu((((f as int) + 1) % 70) as u32), ..pre };
    if pre.input.escape || pre.input.next || pre.input.prev {
        post == (Snake { input: InputState { escape: false, ..pre.input }, ..pre1 })
    } else {
        exists|m1: Snake, m2: Snake|
            #![trigger menu_field_right(pre1, m1), menu_field_left(m1, m2)]
            menu_field_right(pre1, m1) && menu_field_left(m1, m2) && post == menu_tail(m2)
    }
}

impl Snake {
    /// A spot for a spawned item: a random probe, falling back to a scan
    /// for a free cell starting at the probe; only when the board has no
    /// free cell at all does an occupied probe come back.
    #[verifier::loop_isolation(false)]
    #[verifier::rlimit(100)]
    pub fn random_free_spot(&self) -> (r: (usize, usize))
        requires
            self.board.wf(),
            self.board.spec_width() == WIDTH,
            self.board.spec_height() == HEIGHT,
        ensures
            spot_ok(self.board, self.head_position, self.food_position, r),
    {
        let x = (crate::rng::random_u32() as usize) % WIDTH;
        let y = (crate::rng::random_u32() as usize) % HEIGHT;
        let head = self.head_position;
        let food = self.food_position;
        let probe_free = self.board.get(x, y).is_empty() && !(x == head.0 && y == head.1) && !(x
            == food.0 && y == food.1);
        if probe_free {
            return (x, y);
        }
        let mut xo: usize = 0;
        while xo < WIDTH
            invariant
                xo <= WIDTH,
                forall|a: int, b: int|
                    0 <= a < WIDTH && 0 <= b < HEIGHT && ((a - x + WIDTH) % (WIDTH as int) < xo)
                        ==> (!(#[trigger] self.board.at(a, b) is Empty) || (a == head.0 && b
                        == head.1) || (a == food.0 && b == food.1)),
            decreases WIDTH - xo,
        {
            let mut yo: usize = 0;
            while yo < HEIGHT
                invariant
                    yo <= HEIGHT,
                    xo < WIDTH,
                    forall|a: int, b: int|
                        0 <= a < WIDTH && 0 <= b < HEIGHT && ((a - x + WIDTH) % (WIDTH as int)
                            < xo) ==> (!(#[trigger] self.board.at(a, b) is Empty) || (a == head.0
                            && b == head.1) || (a == food.0 && b == food.1)),
                    forall|b: int|
                        0 <= b < HEIGHT && ((b - y + HEIGHT) % (HEIGHT as int) < yo) ==> (!(
                        #[trigger] self.board.at(
                            ((x as int) + (xo as int)) % (WIDTH as int),
                            b,
                        ) is Empty) || (((x as int) + (xo as int)) % (WIDTH as int) == head.0 && b
                            == head.1) || (((x as int) + (xo as int)) % (WIDTH as int) == food.0
                            && b == food.1)),
                decreases HEIGHT - yo,
            {
                let nx = (x + xo) % WIDTH;
                let ny = (y + yo) % HEIGHT;
                let ok = self.board.get(nx, ny).is_empty() && !(nx == head.0 && ny == head.1) && !(
                nx == food.0 && ny == food.1);
                if ok {
                    return (nx, ny);
                }
                proof {
                    assert((ny - y + HEIGHT) % (HEIGHT as int) == yo);
                }
                yo = yo + 1;
            }
            proof {
                assert forall|a: int, b: int|
                    0 <= a < WIDTH && 0 <= b < HEIGHT && ((a - x + WIDTH) % (WIDTH as int) < xo
                        + 1) implies (!(#[trigger] self.board.at(a, b) is Empty) || (a == head.0
                    && b == head.1) || (a == food.0 && b == food.1)) by {
                    if (a - x + WIDTH) % (WIDTH as int) == xo {
                        assert(a == ((x as int) + (xo as int)) % (WIDTH as int));
                        assert((b - y + HEIGHT) % (HEIGHT as int) < HEIGHT);
                    }
                }
            }
            xo = xo + 1;
        }
        proof {
            assert forall|q: (usize, usize)|
                !(#[trigger] free_cell(self.board, head, food, q)) by {
                if q.0 < WIDTH && q.1 < HEIGHT {
                    assert((q.0 - x + WIDTH) % (WIDTH as int) < WIDTH);
                }
            }
        }
        (x, y)
    }

    /// Steer toward `d1`, rejecting a 180-degree reversal relative to the
    /// segment recorded at the head cell (see `steer1`).
    pub fn set_direction(&mut self, d1: Direction)
        requires
            old(self).wf(),
        ensures
            *final(self) == (Snake {
                direction: steer1(
                    old(self).board.at(
                        old(self).head_position.0 as int,
                        old(self).head_position.1 as int,
                    ),
                    old(self).direction,
                    d1,
                ),
                ..*old(self)
            }),
    {
        let head = self.head_position;
        match self.board.get(head.0, head.1) {
            Cell::Filled(CellData::Snake(d2)) => {
                let reverse = d2.turn_right().turn_right();
                let is_rev = match (d1, reverse) {
                    (Direction::Up, Direction::Up) => true,
                    (Direction::Down, Direction::Down) => true,
                    (Direction::Left, Direction::Left) => true,
                    (Direction::Right, Direction::Right) => true,
                    _ => false,
                };
                if !is_rev {
                    self.direction = d1;
                }
            },
            _ => {
                self.direction = d1;
            },
        }
    }

    /// One forced movement step (see `advance_rel`).
    #[verifier::rlimit(100)]
    pub fn advance(&mut self)
        requires
            old(self).wf(),
        ensures
            final(self).wf(),
            advance_rel(*old(self), *final(self)),
    {
        let ghost pre = *old(self);
        self.bonus_timer = self.bonus_timer - 1;
        if self.bonus_timer == 0 {
            let has_bonus = match self.bonus_position {
                Some(_) => true,
                None => false,
            };
            if has_bonus {
                self.bonus_position = None;
                self.bonus_timer = NO_BONUS_TIME;
            } else {
                let p = self.random_free_spot();
                self.bonus_position = Some(p);
                self.bonus_timer = BONUS_TIME;
            }
        }
        let ghost b1 = self.bonus_position;
        let ghost t2 = self.bonus_timer;
        proof {
            assert(bonus_phase_ok(pre, b1, t2));
        }
        let head = self.head_position;
        self.board.set(head.0, head.1, Cell::Filled(CellData::Snake(self.direction)));
        let nl = move_dir(head, self.direction);
        let c = self.board.get(nl.0, nl.1);
        if !c.is_empty() {
            self.status = Status::Raising(0);
            proof {
                let ghost f1 = (0usize, 0usize);
                let ghost fm = food_spot_ok(pre, f1);
                assert(!(pre.board.at(nl.0 as int, nl.1 as int) is Empty));
                assert(advance_rel(pre, *final(self)));
            }
            return ;
        }
        let eaten = nl.0 == self.food_position.0 && nl.1 == self.food_position.1;
        let ghost f1: (usize, usize) = (0usize, 0usize);
        if eaten {
            self.points = sat_add(self.points, MAX_LEVEL - self.speed + 1);
            self.growth = sat_add(self.growth, 1);
            let f = self.random_free_spot();
            proof {
                assert forall|q: (usize, usize)| #[trigger]
                    free_cell(self.board, self.head_position, self.food_position, q) implies
                    food_free(pre, q) by {}
                assert forall|q: (usize, usize)| #[trigger] food_free(pre, q) implies free_cell(
                    self.board,
                    self.head_position,
                    self.food_position,
                    q,
                ) by {}
                f1 = f;
                if exists|q: (usize, usize)| #[trigger] food_free(pre, q) {
                    let q = choose|q: (usize, usize)| #[trigger] food_free(pre, q);
                    assert(free_cell(self.board, self.head_position, self.food_position, q));
                }
                assert(food_spot_ok(pre, f));
            }
            self.food_position = f;
        }
        self.head_position = nl;
        self.board.set(nl.0, nl.1, Cell::Filled(CellData::Snake(self.direction)));
        let hitb = match self.bonus_position {
            Some(b) => b.0 == self.head_position.0 && b.1 == self.head_position.1,
            None => false,
        };
        if hitb {
            self.points = sat_add(self.points, self.bonus_timer * 4 + 4);
            self.bonus_position = None;
            self.bonus_timer = NO_BONUS_TIME;
        }
        if self.growth > 0 {
            self.growth = self.growth - 1;
        } else {
            let tl = self.tail_position;
            let tc = self.board.get(tl.0, tl.1);
            match tc {
                Cell::Filled(CellData::Snake(d)) => {
                    self.board.set(tl.0, tl.1, Cell::Empty);
                    self.tail_position = move_dir(tl, d);
                },
                _ => {},
            }
        }
        proof {
            let ghost fm = food_spot_ok(pre, f1);
            assert(advance_rel(pre, *final(self)));
        }
    }

    /// The whole-run reset (see `new_game_core`).
    pub fn new_game(&mut self)
        requires
            old(self).wf(),
        ensures
            final(self).wf(),
            new_game_core(*old(self), *final(self)),
            final(self).status == old(self).status,
    {
        self.board = crate::fields::field(self.config.field);
        let improved = self.score_table.update_scores(
            self.config.level as usize,
            self.config.field as usize,
            self.points,
        );
        if improved {
            self.save_pending = true;
        }
        self.direction = Direction::Right;
        self.tail_position = (WIDTH / 2, HEIGHT / 2);
        self.head_position = (WIDTH / 2, HEIGHT / 2);
        self.bonus_position = None;
        self.growth = 3;
        let f = self.random_free_spot();
        self.food_position = f;
        self.bonus_timer = NO_BONUS_TIME;
        self.points = 0;
        self.speed = MAX_LEVEL - self.config.level;
    }
}

/// The whole per-frame transition, by lifecycle phase.
pub open spec fn tick_step(pre: Snake, post: Snake) -> bool {
    match pre.status {
        Status::Active => active_step(pre, post),
        Status::Paused => paused_step(pre, post),
        Status::Raising(f) => raising_step(pre, post, f),
        Status::Lowering(f) => lowering_step(pre, post, f),
        Status::Menu(f) => menu_step(pre, post, f),
    }
}

/// What the frame tells the driver: only the menu leaves the game.
pub open spec fn tick_result_spec(pre: Snake) -> TickResult {
    match pre.status {
        Status::Menu(_) => if pre.input.escape {
            TickResult::Exit
        } else if pre.input.next {
            TickResult::NextGame
        } else if pre.input.prev {
            TickResult::PrevGame
        } else {
            TickResult::Continue
        },
        _ => TickResult::Continue,
    }
}

impl Snake {
    /// The active-phase frame (see `active_step`).
    #[verifier::rlimit(100)]
    #[verifier::spinoff_prover]
    fn tick_active(&mut self)
        requires
            old(self).wf(),
            old(self).status == Status::Active,
        ensures
            final(self).wf(),
            active_step(*old(self), *final(self)),
    {
        if self.input.escape {
            self.status = Status::Paused;
            self.input.escape = false;
        } else {
            let ghost pre0 = *self;
            if self.input.left {
                self.set_direction(Direction::Left);
            }
            if self.input.right {
                self.set_direction(Direction::Right);
            }
            if self.input.up {
                self.set_direction(Direction::Up);
            }
            if self.input.down {
                self.set_direction(Direction::Down);
            }
            if self.input.button_a {
                let d = self.direction.turn_left();
                self.set_direction(d);
            }
            if self.input.button_b {
                let d = self.direction.turn_right();
                self.set_direction(d);
            }
            proof {
                assert(*self == (Snake { direction: steered(pre0), ..pre0 }));
            }
            let ghost mid = *self;
            if self.movement_tick == 0 {
                self.advance();
            }
            let ghost adv = *self;
            self.movement_tick = (self.movement_tick + 1) % self.speed;
            self.anim_tick = (self.anim_tick + 1) % 4;
            proof {
                if pre0.movement_tick == 0 {
                    assert(advance_rel(mid, adv));
                    assert(adv == (Snake {
                        movement_tick: mid.movement_tick,
                        anim_tick: mid.anim_tick,
                        ..*self
                    }));
                }
                assert(active_step(pre0, *self));
            }
        }
    }

    /// The menu's layout switch to the right (see `menu_field_right`).
    fn menu_switch_right(&mut self)
        requires
            old(self).wf(),
        ensures
            final(self).wf(),
            menu_field_right(*old(self), *final(self)),
    {
        if self.input.right {
            self.input.right = false;
            self.config.field = (self.config.field + 1) % crate::fields::MAX_FIELDS;
            self.new_game();
        }
    }

    /// The menu's layout switch to the left (see `menu_field_left`).
    fn menu_switch_left(&mut self)
        requires
            old(self).wf(),
        ensures
            final(self).wf(),
            menu_field_left(*old(self), *final(self)),
    {
        if self.input.left {
            self.input.left = false;
            if self.config.field == 0 {
                self.config.field = crate::fields::MAX_FIELDS - 1;
            } else {
                self.config.field = self.config.field - 1;
            }
            self.new_game();
        }
    }

    /// The menu frame (see `menu_step` and `tick_result_spec`).
    #[verifier::rlimit(100)]
    #[verifier::spinoff_prover]
    fn tick_menu(&mut self, f: u32) -> (r: TickResult)
        requires
            old(self).wf(),
            old(self).status == Status::Menu(f),
        ensures
            final(self).wf(),
            menu_step(*old(self), *final(self), f),
            r == tick_result_spec(*old(self)),
    {
        self.status = Status::Menu((f + 1) % 70);
        if self.input.escape {
            self.input.escape = false;
            return TickResult::Exit;
        }
        if self.input.next {
            self.input.escape = false;
            return TickResult::NextGame;
        }
        if self.input.prev {
            self.input.escape = false;
            return TickResult::PrevGame;
        }
        let ghost pre1 = *self;
        self.menu_switch_right();
        let ghost m1 = *self;
        self.menu_switch_left();
        let ghost m2 = *self;
        proof {
            assert(menu_field_right(pre1, m1) && menu_field_left(m1, m2));
        }
        if self.input.drop {
            self.input.drop = false;
            self.status = Status::Active;
        }
        if self.input.up {
            self.input.up = false;
            if self.config.level < MAX_LEVEL - 1 {
                self.config.level = self.config.level + 1;
                self.speed = MAX_LEVEL - self.config.level;
            }
        }
        if self.input.down {
            self.input.down = false;
            if self.config.level > 0 {
                self.config.level = self.config.level - 1;
                self.speed = MAX_LEVEL - self.config.level;
            }
        }
        proof {
            assert(*self == menu_tail(m2));
        }
        TickResult::Continue
    }

    /// One frame of simulation: consume the buffered intents for the
    /// current lifecycle phase, advance the world, and tell the driver
    /// whether to continue, exit, or switch game.
    pub fn tick(&mut self) -> (r: TickResult)
        requires
            old(self).wf(),
        ensures
            final(self).wf(),
            r == tick_result_spec(*old(self)),
            tick_step(*old(self), *final(self)),
    {
        match self.status {
            Status::Active => {
                self.tick_active();
            },
            Status::Paused => {
                if self.input.drop || self.input.button_a || self.input.button_b
                    || self.input.left || self.input.right || self.input.down || self.input.up {
                    self.status = Status::Active;
                } else if self.input.escape {
                    self.input.escape = false;
                    self.status = Status::Raising(0);
                }
            },
            Status::Raising(f) => {
                if f == HEIGHT {
                    self.new_game();
                    self.status = Status::Lowering(HEIGHT);
                } else {
                    self.status = Status::Raising(f + 1);
                }
            },
            Status::Lowering(f) => {
                if f == 0 {
                    self.status = Status::Menu(0);
                } else {
                    self.status = Status::Lowering(f - 1);
                }
            },
            Status::Menu(f) => {
                return self.tick_menu(f);
            },
        }
        TickResult::Continue
    }

    /// A fresh game over a loaded best-score table: the menu showing, the
    /// open layout, level nine preselected as the default difficulty, the
    /// snake coiled at the center and the food on a free cell.
    pub fn new(score_table: ScoreTable) -> (g: Snake)
        requires
            score_table.wf(),
            score_table.spec_levels() == MAX_LEVEL,
            score_table.spec_variants() == crate::fields::MAX_FIELDS,
        ensures
            g.wf(),
            g.status == Status::Menu(0),
            g.config == (Config { field: 0, level: 9 }),
            g.points == 0,
            g.score_table == score_table,
            g.save_pending == false,
            g.direction == Direction::Right,
            g.head_position == ((WIDTH / 2) as usize, (HEIGHT / 2) as usize),
            g.tail_position == g.head_position,
            g.bonus_position is None,
            g.growth == 3,
            g.speed == MAX_LEVEL - 9,
            g.bonus_timer == NO_BONUS_TIME,
            g.movement_tick == 0,
            g.anim_tick == 0,
            forall|x: int, y: int|
                0 <= x < WIDTH && 0 <= y < HEIGHT ==> #[trigger] g.board.at(x, y) is Empty,
            g.food_position.0 < WIDTH,
            g.food_position.1 < HEIGHT,
            g.food_position != g.head_position,
    {
        let mut g = Snake {
            config: Config { field: 0, level: 9 },
            status: Status::Menu(0),
            board: crate::fields::field(0),
            movement_tick: 0,
            speed: MAX_LEVEL - 9,
            direction: Direction::Right,
            head_position: (WIDTH / 2, HEIGHT / 2),
            tail_position: (WIDTH / 2, HEIGHT / 2),
            food_position: (0, 0),
            bonus_position: None,
            points: 0,
            score_table,
            input: InputState::new(),
            growth: 3,
            bonus_timer: NO_BONUS_TIME,
            anim_tick: 0,
            save_pending: false,
        };
        let f = g.random_free_spot();
        proof {
            assert(free_cell(g.board, g.head_position, g.food_position, (1usize, 0usize)));
            assert(free_cell(g.board, g.head_position, g.food_position, f));
        }
        g.food_position = f;
        g
    }

    /// The level reached, counted up from the starting gravity period.
    pub fn current_level(&self) -> (r: u32)
        requires
            self.wf(),
        ensures
            r == MAX_LEVEL - self.speed,
    {
        MAX_LEVEL - self.speed
    }

    /// The running score.
    pub fn score(&self) -> (r: u32)
        ensures
            r == self.points,
    {
        self.points
    }

    /// The stored best score for the current configuration.
    pub fn top_score(&self) -> (r: u32)
        requires
            self.wf(),
        ensures
            r == self.score_table.score_at(self.config.level as int, self.config.field as int),
    {
        self.score_table.get_top_score(self.config.level as usize, self.config.field as usize)
    }

    /// Whether the game is paused.
    pub fn is_paused(&self) -> (r: bool)
        ensures
            r == (self.status is Paused),
    {
        match self.status {
            Status::Paused => true,
            _ => false,
        }
    }

    /// The serialized best-score table, handed out once after each
    /// improvement for the caller to write to the store.
    pub fn take_save_request(&mut self) -> (r: Option<Vec<u8>>)
        requires
            old(self).wf(),
        ensures
            *final(self) == (Snake { save_pending: false, ..*old(self) }),
            (r is Some) == old(self).save_pending,
            r matches Some(bytes) ==> crate::score_table::table_encoded(
                old(self).score_table,
                bytes@,
            ),
    {
        if self.save_pending {
            self.save_pending = false;
            Some(self.score_table.to_bytes())
        } else {
            None
        }
    }
}

impl crate::game::Game for Snake {
    type CellData = CellData;

    open spec fn inv(&self) -> bool {
        self.wf()
    }

    fn current_level(&self) -> u32 {
        Snake::current_level(self)
    }

    fn score(&self) -> u32 {
        Snake::score(self)
    }

    fn top_score(&self) -> u32 {
        Snake::top_score(self)
    }

    fn board(&self) -> &Imprint<CellData> {
        &self.board
    }

    fn next(&self) -> Option<Imprint<CellData>> {
        None
    }

    fn tick(&mut self) -> TickResult {
        Snake::tick(self)
    }

    fn is_paused(&self) -> bool {
        Snake::is_paused(self)
    }

    fn input_state(&mut self) -> &mut InputState {
        &mut self.input
    }

    fn take_save_request(&mut self) -> Option<Vec<u8>> {
        Snake::take_save_request(self)
    }
}

} // verus!
