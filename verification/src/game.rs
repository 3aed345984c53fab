//! The pieces shared by all three state machines: the per-frame input
//! buffer, the frame transition result, the snapshot trait a renderer
//! consumes, and saturating score arithmetic.

use crate::imprint::Imprint;
use vstd::prelude::*;

verus! {

/// Buffered player intents for one frame, written by the input-polling
/// collaborator before each tick. Edge-triggered intents (drop, rotation,
/// menu switches) are cleared by the state machine as they are consumed;
/// held directional intents persist until the collaborator clears them on
/// key release. `skip` is the autorepeat counter for held left/right.
#[derive(Debug, Copy, Clone, PartialEq, Eq, Structural)]
pub struct InputState {
    pub escape: bool,
    pub down: bool,
    pub up: bool,
    pub left: bool,
    pub right: bool,
    pub button_a: bool,
    pub button_b: bool,
    pub drop: bool,
    pub next: bool,
    pub prev: bool,
    pub skip: u32,
}

impl InputState {
    /// All intents off, autorepeat counter at zero.
    pub fn new() -> (r: InputState)
        ensures
            r == (InputState {
                escape: false,
                down: false,
                up: false,
                left: false,
                right: false,
                button_a: false,
                button_b: false,
                drop: false,
                next: false,
                prev: false,
                skip: 0,
            }),
    {
        InputState {
            escape: false,
            down: false,
            up: false,
            left: false,
            right: false,
            button_a: false,
            button_b: false,
            drop: false,
            next: false,
            prev: false,
            skip: 0,
        }
    }
}

/// What one frame transition tells the external driver.
#[derive(Debug, Copy, Clone, PartialEq, Eq, Structural)]
pub enum TickResult {
    Continue,
    Exit,
    NextGame,
    PrevGame,
}

/// The snapshot-and-transition interface a driver and renderer use,
/// implemented by each of the three games. `inv` is the game's structural
/// invariant; every operation assumes it and the frame transition keeps it.
pub trait Game {
    type CellData;

    spec fn inv(&self) -> bool;

    fn current_level(&self) -> u32
        requires
            self.inv(),
    ;

    fn score(&self) -> u32
        requires
            self.inv(),
    ;

    fn top_score(&self) -> u32
        requires
            self.inv(),
    ;

    fn board(&self) -> &Imprint<Self::CellData>
        requires
            self.inv(),
    ;

    fn next(&self) -> Option<Imprint<Self::CellData>>
        requires
            self.inv(),
    ;

    fn tick(&mut self) -> (r: TickResult)
        requires
            old(self).inv(),
        ensures
            final(self).inv(),
    ;

    fn is_paused(&self) -> bool
        requires
            self.inv(),
    ;

    fn input_state(&mut self) -> &mut InputState
        requires
            old(self).inv(),
    ;

    fn take_save_request(&mut self) -> (r: Option<Vec<u8>>)
        requires
            old(self).inv(),
        ensures
            final(self).inv(),
    ;
}

/// Addition clamped to `u32::MAX`; scores and counters never wrap.
pub open spec fn sat_add32(a: u32, b: u32) -> u32 {
    if a + b <= u32::MAX {
        (a + b) as u32
    } else {
        u32::MAX
    }
}

/// Executable saturating addition matching `sat_add32`.
pub fn sat_add(a: u32, b: u32) -> (r: u32)
    ensures
        r == sat_add32(a, b),
{
    if a <= u32::MAX - b {
        a + b
    } else {
        u32::MAX
    }
}

} // verus!
