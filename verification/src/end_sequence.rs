//! What the game plays once the player enters the elevator.
use vstd::prelude::*;

use crate::heap::Number;
use crate::policy::{cycles_ms, duration_ms};

verus! {

/// `Data.SECOND * 14`, in milliseconds at 31.25 ms per game cycle: the length
/// the game gives the cinematic that follows the elevator.
pub const FULL_MS: i64 = 14_000;

/// The largest correction we accept.
///
/// We see the start of the sequence within one read, so the real gap is a
/// few tens of milliseconds. A larger one means the value does not mean what
/// we think -- another version of the game, another cinematic. We then date
/// the split where we saw it. A missing correction costs one read; a wrong one
/// costs the run.
pub const MAX_CORRECTION_MS: i64 = 500;

/// The end sequence of an adventure.
///
/// The race rule ends the run when the player *enters the door and can no
/// longer control the character*. In the last level that door is an elevator.
/// The game then plays a cinematic, reaches game over, and navigates away.
///
/// `GameMode.endModeTimer` carries that cinematic. It says two things: that
/// the run is over, and how long ago it ended.
#[derive(Copy, Clone, Debug, PartialEq, Eq, Structural)]
pub struct EndSequence {
    /// What is left of the cinematic, in milliseconds. Zero means it has not
    /// started.
    pub remaining_ms: i64,
}

impl EndSequence {
    /// From what is left of the cinematic, in milliseconds.
    ///
    /// A negative count is no sequence: `main()` takes the timer below zero on
    /// the frame it calls game over.
    pub fn from_remaining_ms(ms: i64) -> (s: EndSequence)
        ensures
            s.remaining_ms == (if ms > 0 { ms } else { 0 }),
    {
        EndSequence { remaining_ms: if ms > 0 { ms } else { 0 } }
    }

    /// From `GameMode.endModeTimer`, in game cycles.
    pub fn from_cycles(cycles: Number) -> (s: EndSequence)
        ensures
            s.remaining_ms == (if cycles_ms(cycles) > 0 {
                cycles_ms(cycles)
            } else {
                0
            }),
    {
        EndSequence::from_remaining_ms(duration_ms(cycles))
    }

    /// Has the player entered the elevator?
    pub open spec fn is_started(self) -> bool {
        self.remaining_ms > 0
    }

    /// The gap between the elevator and the reading, when it can be trusted.
    pub open spec fn gap_ms(self) -> int {
        if !self.is_started() {
            0
        } else if 0 <= FULL_MS - self.remaining_ms <= MAX_CORRECTION_MS {
            FULL_MS - self.remaining_ms
        } else {
            0
        }
    }

    /// Has the player entered the elevator?
    pub fn started(self) -> (b: bool)
        ensures
            b == self.is_started(),
    {
        self.remaining_ms > 0
    }

    /// Milliseconds between the elevator and this reading.
    ///
    /// Zero when the sequence has not started, and zero when the gap is too
    /// large to be trusted.
    pub fn since_the_elevator_ms(self) -> (ms: i64)
        ensures
            ms == self.gap_ms(),
            0 <= ms <= MAX_CORRECTION_MS,
    {
        if !self.started() {
            return 0;
        }
        let gap = FULL_MS - self.remaining_ms;
        if 0 <= gap && gap <= MAX_CORRECTION_MS {
            gap
        } else {
            0
        }
    }
}

impl Default for EndSequence {
    /// The sequence has not started. The run is still going.
    fn default() -> (s: EndSequence)
        ensures
            s.remaining_ms == 0,
    {
        EndSequence { remaining_ms: 0 }
    }
}

} // verus!
