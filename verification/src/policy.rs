//! When to start, split, reset, or drop a resolution.
//!
//! A pure state machine. Every tick it receives what the game says -- or
//! nothing, when no game was found -- and returns the actions to execute. It
//! reads no memory and knows nothing about LiveSplit.
use vstd::prelude::*;

use crate::end_sequence::EndSequence;
use crate::heap::{
    pow2_of, round53, rounded, with_sign, Number, EXPONENT_BIAS, EXPONENT_UNIT, SIGN_BIT,
};
use vstd::arithmetic::power2::pow2;

verus! {

/// What the game says about itself at one instant.
#[derive(Copy, Clone, Debug, PartialEq, Eq, Structural)]
pub struct State {
    /// `GameMode.world.currentId`: the level, as the game displays it.
    pub level: i64,
    /// `SetManager._previousId`.
    pub previous: i64,
    /// `Chrono.get()`, in milliseconds.
    pub chrono_ms: i64,
    /// `Chrono.frameTimer`: it advances every frame while this GameMode runs.
    pub frame_timer: i64,
    /// `GameMode.currentDim`: 0 for the main world.
    pub dim: i64,
    /// `GameMode.fl_gameOver`.
    pub game_over: bool,
    /// `GameMode.fl_lock`: true during the black screen at the start, during
    /// level transitions, and during a pause. The game does not simulate.
    pub locked: bool,
    /// `GameMode.duration`, converted to milliseconds.
    ///
    /// `main()` returns on `fl_lock` **before** it increments this value. So
    /// the value is exactly zero until level 0 appears. After that, it
    /// measures the time during which the game ran.
    pub duration_ms: i64,
    /// `GameMode.endModeTimer`: the cinematic that follows the elevator.
    pub end_sequence: EndSequence,
}

/// The largest magnitude of a counter on which the policy's subtractions are
/// exact.
///
/// The policy subtracts one counter from another, as `i64` values that wrap
/// on overflow, the way the module LiveSplit loads computes them. Every
/// counter the game writes is far below this bound -- a frame timer in
/// milliseconds reaches it after seventy-three million years -- and below
/// it, no subtraction wraps. The laws on the time published are stated there.
pub const COUNTER_LIMIT: i64 = 0x2000_0000_0000_0000;

impl State {
    /// The counters are within the range where the policy's subtractions
    /// are exact.
    pub open spec fn in_range(self) -> bool {
        &&& -COUNTER_LIMIT <= self.level <= COUNTER_LIMIT
        &&& -COUNTER_LIMIT <= self.chrono_ms <= COUNTER_LIMIT
        &&& -COUNTER_LIMIT <= self.frame_timer <= COUNTER_LIMIT
        &&& -COUNTER_LIMIT <= self.duration_ms <= COUNTER_LIMIT
    }

}

// -- game cycles ------------------------------------------------------------

/// `magnitude * 2^shift`, truncated toward zero.
pub open spec fn scaled(magnitude: nat, shift: int) -> nat {
    if shift >= 0 {
        magnitude * pow2(shift as nat)
    } else {
        magnitude / pow2((-shift) as nat)
    }
}

/// A whole magnitude with a sign, as a cast to `i64` gives it: saturated at
/// the bounds.
pub open spec fn truncated(negative: bool, magnitude: nat) -> i64 {
    if magnitude >= 0x8000_0000_0000_0000 {
        if negative {
            i64::MIN
        } else {
            i64::MAX
        }
    } else {
        with_sign(negative, magnitude as int) as i64
    }
}

/// A count of game cycles in milliseconds: the double `cycles * 31.25`,
/// truncated toward zero and saturated, as `(cycles * (1000.0 / 32.0)) as
/// i64` computes it.
///
/// The product of a double by 125 is rounded to 53 significant bits, half to
/// even; the scale by a quarter is exact. A product below the smallest normal
/// double truncates to zero however it rounds, and one beyond the largest
/// saturates however it rounds. An integer atom is first the double nearest
/// to it. A NaN gives zero, an infinity the bound of its sign.
pub open spec fn cycles_ms(cycles: Number) -> i64 {
    match cycles {
        Number::Int(i) => {
            let magnitude = if i < 0 {
                -(i as int)
            } else {
                i as int
            };
            truncated(i < 0, rounded(rounded(magnitude as nat) * 125) / 4)
        },
        Number::Double(bits) => {
            let negative = bits >= SIGN_BIT;
            let exponent = (bits / EXPONENT_UNIT) % 0x800;
            let fraction = bits % EXPONENT_UNIT;
            if exponent == 0x7ff {
                if fraction != 0 {
                    0
                } else {
                    truncated(negative, pow2(64))
                }
            } else {
                let significand: int = if exponent == 0 {
                    fraction as int
                } else {
                    fraction + EXPONENT_UNIT
                };
                let base: int = if exponent == 0 {
                    1
                } else {
                    exponent as int
                };
                truncated(negative, scaled(rounded((significand * 125) as nat), base - (EXPONENT_BIAS + 2)))
            }
        },
    }
}

fn truncate(negative: bool, magnitude: u128) -> (r: i64)
    ensures
        r == truncated(negative, magnitude as nat),
{
    if magnitude >= 0x8000_0000_0000_0000 {
        if negative {
            i64::MIN
        } else {
            i64::MAX
        }
    } else {
        let m = magnitude as i64;
        if negative {
            -m
        } else {
            m
        }
    }
}

/// `GameMode.duration`, in game cycles, converted to milliseconds.
///
/// The game does `duration += Timer.tmod` every frame, and `Timer.tmod` is 1
/// per frame at the reference frame rate. The sum therefore follows real time.
/// Measured over a 67 s game, the difference is 0.1 %.
pub fn duration_ms(cycles: Number) -> (ms: i64)
    ensures
        ms == cycles_ms(cycles),
{
    proof {
        vstd::arithmetic::power2::lemma2_to64();
        vstd::arithmetic::power2::lemma2_to64_rest();
    }
    match cycles {
        Number::Int(i) => {
            let a: u128 = if i < 0 {
                (0 - (i as i128)) as u128
            } else {
                i as u128
            };
            let x = round53(a);
            let r = round53(x * 125);
            truncate(i < 0, r / 4)
        },
        Number::Double(bits) => {
            let negative = bits >= SIGN_BIT;
            let exponent = (bits >> 52) & 0x7ff;
            let fraction = bits & 0xf_ffff_ffff_ffff;
            assert((bits >> 52) & 0x7ff == (bits / 0x10_0000_0000_0000) % 0x800) by (bit_vector);
            assert(bits & 0xf_ffff_ffff_ffff == bits % 0x10_0000_0000_0000) by (bit_vector);
            if exponent == 0x7ff {
                return if fraction != 0 {
                    0
                } else {
                    truncate(negative, 0x1_0000_0000_0000_0000)
                };
            }
            let significand: u128 = if exponent == 0 {
                fraction as u128
            } else {
                (fraction + EXPONENT_UNIT) as u128
            };
            let r = round53(significand * 125);
            assert(r <= 0x4000_0000_0000_0000);
            let base: u64 = if exponent == 0 {
                1
            } else {
                exponent
            };
            if base >= EXPONENT_BIAS + 2 {
                let up = (base - (EXPONENT_BIAS + 2)) as u32;
                if up >= 64 {
                    proof {
                        if up > 64 {
                            vstd::arithmetic::power2::lemma_pow2_strictly_increases(64, up as nat);
                        }
                        let p = pow2(up as nat);
                        assert(p >= 0x1_0000_0000_0000_0000);
                        assert(r * p >= p || r == 0) by (nonlinear_arith)
                            requires
                                r >= 0,
                                p >= 0,
                        ;
                        assert(scaled(r as nat, (base - (EXPONENT_BIAS + 2)) as int) == r * p);
                    }
                    return truncate(
                        negative,
                        if r == 0 {
                            0
                        } else {
                            0x1_0000_0000_0000_0000
                        },
                    );
                }
                let d = pow2_of(up);
                proof {
                    if up < 64 {
                        vstd::arithmetic::power2::lemma_pow2_strictly_increases(up as nat, 64);
                    }
                }
                assert(r * d < 0x1_0000_0000_0000_0000_0000_0000_0000_0000) by (nonlinear_arith)
                    requires
                        r <= 0x4000_0000_0000_0000,
                        d <= 0x1_0000_0000_0000_0000,
                ;
                truncate(negative, r * d)
            } else {
                let down = ((EXPONENT_BIAS + 2) - base) as u32;
                if down >= 126 {
                    proof {
                        vstd::arithmetic::power2::lemma_pow2_strictly_increases(64, down as nat);
                        vstd::arithmetic::div_mod::lemma_basic_div(r as int, pow2(down as nat) as int);
                    }
                    return truncate(negative, 0);
                }
                let d = pow2_of(down);
                proof {
                    vstd::arithmetic::power2::lemma_pow2_pos(down as nat);
                }
                truncate(negative, r / d)
            }
        },
    }
}

/// What LiveSplit says about its own timer.
///
/// `Paused` is absent on purpose. A Hammerfest run has no legal pause: the
/// time counts whatever the player does, so a runner who pauses the LiveSplit
/// timer is still in a run. The adapter therefore reports `Running` for it,
/// and the core never has to think about it.
#[derive(Copy, Clone, Debug, PartialEq, Eq, Structural)]
pub enum TimerState {
    NotRunning,
    Running,
    Ended,
    /// The runtime reported something we do not know. We then do nothing,
    /// which is the only safe answer to "I cannot tell".
    Unknown,
}

/// What the caller must do, in this order.
#[derive(Copy, Clone, Debug, PartialEq, Eq, Structural)]
pub struct Actions {
    pub reset: bool,
    pub start: bool,
    pub split: bool,
    /// How many `skip_split` follow the `split`, for the levels a warp zone
    /// carried the player over and that they never played.
    ///
    /// A skipped segment records no time, so it produces no gold and stays out
    /// of the sum of best segments. The run then consumes the same number of
    /// segments whether the umbrella appeared or not.
    pub skips: u8,
    /// The current resolution is no longer valid. Drop it and search again.
    pub drop_resolution: bool,
    /// Real time since the official start, in milliseconds.
    ///
    /// The value is absolute. A late start corrects itself on the first read.
    /// That is what takes the heap scan off the critical path.
    pub real_time_ms: Option<i64>,
}

/// No action at all.
pub open spec fn no_actions() -> Actions {
    Actions {
        reset: false,
        start: false,
        split: false,
        skips: 0,
        drop_resolution: false,
        real_time_ms: None,
    }
}

impl Actions {
    fn nothing() -> (a: Actions)
        ensures
            a == no_actions(),
    {
        Actions {
            reset: false,
            start: false,
            split: false,
            skips: 0,
            drop_resolution: false,
            real_time_ms: None,
        }
    }
}

impl Default for Actions {
    /// Nothing to do.
    fn default() -> (a: Actions)
        ensures
            a == no_actions(),
    {
        Actions::nothing()
    }
}

/// The first level of an adventure.
pub const FIRST_LEVEL: i64 = 0;
/// The widest move `SpecialManager.warpZone` can make. It advances by 1 to 3
/// through `forcedGoto`, stopping before a boss or an empty level.
pub const WARP_REACH: i64 = 3;
/// Ticks without a change in `frameTimer` before the GameMode is declared
/// dead. The value is generous: Flash runs at about thirty frames per second,
/// and a background window runs slower still.
pub const STALE_TICKS: u32 = 90;
/// Ticks without a valid read before a game counts as abandoned.
pub const LOST_BEFORE_RESET: u32 = 240;
/// How far the game clock may go back before it is another game.
pub const CLOCK_SLACK_MS: i64 = 2_000;

/// How many segments a crossing of `jump` levels leaves behind.
///
/// A warp zone -- the umbrella -- carries the player over up to two levels
/// they never play. Above `WARP_REACH` the move is not a warp zone: it is the
/// level 0 shortcut, which the runner plans as one segment, or the writes
/// inside one frame read in the middle, or a misread. The bound is what keeps
/// that last case cheap.
pub open spec fn skips_for(jump: int) -> u8 {
    if jump <= WARP_REACH as i128 {
        (jump - 1) as u8
    } else {
        0
    }
}

fn skips_after(jump: i128) -> (s: u8)
    requires
        jump >= 1,
    ensures
        s == skips_for(jump as int),
        s < WARP_REACH,
{
    if jump <= WARP_REACH as i128 {
        (jump - 1) as u8
    } else {
        0
    }
}

/// The decisions of one game, kept from one tick to the next.
pub struct Policy {
    /// The last confirmed state, the one we acted on.
    prev: Option<State>,
    /// The previous read, not confirmed yet.
    seen: Option<State>,
    /// Did we see the absence of a game since the last one?
    saw_no_game: bool,
    /// Did we see this game start, rather than find it already running?
    launched: bool,
    /// The origin of real time, in the clock of the Flash player.
    ///
    /// `Std.getTimer()` counts real milliseconds since the plugin started. We
    /// set the origin once. Everything after that is a subtraction, so nothing
    /// can drift.
    origin: Option<i64>,
    /// The last `duration` read. It only goes down at the next game.
    duration_seen: i64,
    /// Did we ever read a game at all?
    had_game: bool,
    lost: u32,
    heartbeat: i64,
    frozen: u32,
    /// The run is over: the player entered the elevator.
    ///
    /// The game keeps running for fourteen seconds after that, then it reaches
    /// game over and the plugin navigates away. Neither of those two events
    /// may reset a run that is already finished.
    finished: bool,
    /// Real time at the instant the run ended.
    ///
    /// Once it is set, it is the only value we publish. `frameTimer` keeps
    /// advancing during the end sequence, and the final time must not.
    finish_time_ms: Option<i64>,
}

/// The time we publish while a run is finished: the time of the elevator,
/// when it is known.
pub open spec fn or_else(first: Option<i64>, second: Option<i64>) -> Option<i64> {
    match first {
        Some(t) => Some(t),
        None => second,
    }
}

impl Policy {
    /// The values the policy holds are in the range where its subtractions
    /// are exact: the states it kept are, and so are the origin and the time
    /// of the elevator it computed from them.
    pub closed spec fn in_range(self) -> bool {
        &&& (self.prev matches Some(s) ==> s.in_range())
        &&& (self.seen matches Some(s) ==> s.in_range())
        &&& (self.origin matches Some(o) ==> -2 * COUNTER_LIMIT <= o <= 2 * COUNTER_LIMIT)
        &&& (self.finish_time_ms matches Some(t) ==> -4 * COUNTER_LIMIT <= t <= 4 * COUNTER_LIMIT)
    }

    /// The run is over: the player entered the elevator, and no run began
    /// since.
    pub closed spec fn is_finished(self) -> bool {
        self.finished
    }

    /// The time of the elevator, once the run is over.
    pub closed spec fn finish_time(self) -> Option<i64> {
        self.finish_time_ms
    }

    /// The origin of real time, in the clock of the Flash player.
    pub closed spec fn time_origin(self) -> Option<i64> {
        self.origin
    }

    /// Has a game ever been read?
    pub closed spec fn has_seen_a_game(self) -> bool {
        self.had_game
    }

    /// The frame timer of the last read.
    pub closed spec fn last_frame(self) -> i64 {
        self.heartbeat
    }

    /// The last confirmed state -- a level read twice in a row -- the one
    /// the policy acted on.
    pub closed spec fn last_confirmed(self) -> Option<State> {
        self.prev
    }

    /// The last state read, while a game is held.
    pub closed spec fn last_read(self) -> Option<State> {
        self.seen
    }

    /// Consecutive ticks without a game, since the last one read.
    pub closed spec fn lost_ticks(self) -> u32 {
        self.lost
    }

    /// A policy that has seen nothing yet.
    pub closed spec fn initial() -> Policy {
        Policy {
            prev: None,
            seen: None,
            saw_no_game: false,
            launched: false,
            origin: None,
            duration_seen: 0,
            had_game: false,
            lost: 0,
            heartbeat: 0,
            frozen: 0,
            finished: false,
            finish_time_ms: None,
        }
    }

    /// Forgets the game, but **not** that the run is finished.
    pub closed spec fn forgotten(self) -> Policy {
        Policy {
            prev: None,
            seen: None,
            saw_no_game: true,
            origin: None,
            launched: false,
            duration_seen: 0,
            ..self
        }
    }

    /// One tick with no game to read.
    pub closed spec fn after_no_game(self, timer: TimerState) -> (Policy, Actions) {
        let lost = if self.had_game {
            if self.lost == u32::MAX {
                self.lost
            } else {
                (self.lost + 1) as u32
            }
        } else {
            self.lost
        };
        let reset = self.had_game && lost == LOST_BEFORE_RESET && timer == TimerState::Running
            && !self.finished;
        (
            Policy { saw_no_game: true, prev: None, seen: None, lost, ..self },
            Actions { reset, drop_resolution: true, ..no_actions() },
        )
    }

    /// What a confirmed level decides, on top of `actions`.
    pub closed spec fn decision(self, timer: TimerState, now: State, actions: Actions) -> Actions {
        if self.finished {
            actions
        } else {
            match self.prev {
                None => actions,
                Some(prev) => {
                    if timer == TimerState::Ended && now.level == FIRST_LEVEL {
                        Actions { reset: true, start: true, ..actions }
                    } else if now.chrono_ms + CLOCK_SLACK_MS < prev.chrono_ms {
                        Actions {
                            reset: if timer == TimerState::Running {
                                true
                            } else {
                                actions.reset
                            },
                            start: if timer == TimerState::Unknown {
                                actions.start
                            } else {
                                true
                            },
                            ..actions
                        }
                    } else if timer == TimerState::Running && now.level > prev.level && now.dim
                        == 0 {
                        Actions {
                            split: true,
                            skips: skips_for(now.level - prev.level),
                            ..actions
                        }
                    } else {
                        actions
                    }
                },
            }
        }
    }

    /// One tick with a game read: the game stays readable but is over, or
    /// its heartbeat has stopped, or it lives.
    pub closed spec fn after_read(self, timer: TimerState, now: State) -> (Policy, Actions) {
        let p1 = Policy {
            lost: 0,
            had_game: true,
            saw_no_game: false,
            launched: self.launched || self.saw_no_game,
            ..self
        };
        if now.game_over {
            (
                p1.forgotten(),
                Actions {
                    reset: timer == TimerState::Running && !p1.finished,
                    drop_resolution: true,
                    ..no_actions()
                },
            )
        } else {
            let same_frame = now.frame_timer == p1.heartbeat;
            let frozen = if same_frame {
                if p1.frozen == u32::MAX {
                    p1.frozen
                } else {
                    (p1.frozen + 1) as u32
                }
            } else {
                0
            };
            let p2 = Policy { heartbeat: now.frame_timer, frozen, ..p1 };
            if same_frame && frozen >= STALE_TICKS {
                (p2.forgotten(), Actions { drop_resolution: true, ..no_actions() })
            } else {
                p2.after_live_read(timer, now)
            }
        }
    }

    /// One tick with a game that lives.
    pub closed spec fn after_live_read(self, timer: TimerState, now: State) -> (Policy, Actions) {
        // Only `duration` and `Std.getTimer()` can go backwards, and only from
        // one game to the next: then the origin belongs to the previous game.
        let stale = (self.origin matches Some(o) && now.frame_timer < o) || now.duration_ms
            < self.duration_seen;
        let origin = if stale {
            None
        } else {
            self.origin
        };
        // The official start: the frame where `fl_lock` goes false.
        let sets_origin = origin is None && !now.locked;
        let p3 = if sets_origin {
            Policy {
                origin: Some(now.frame_timer.wrapping_sub(now.duration_ms)),
                finished: false,
                finish_time_ms: None,
                duration_seen: now.duration_ms,
                ..self
            }
        } else {
            Policy { origin, duration_seen: now.duration_ms, ..self }
        };
        let start = sets_origin && p3.launched && timer == TimerState::NotRunning;
        let real_time = match p3.origin {
            Some(o) => Some(now.frame_timer.wrapping_sub(o)),
            None => None,
        };
        // The end of the run: the player enters the elevator, seen rising.
        let ends = now.end_sequence.is_started() && now.dim == 0 && !p3.finished && (
        p3.seen matches Some(s) && !s.end_sequence.is_started());
        let p4 = if ends {
            Policy {
                finished: true,
                finish_time_ms: match real_time {
                    Some(ms) => Some(ms.wrapping_sub(now.end_sequence.gap_ms() as i64)),
                    None => None,
                },
                ..p3
            }
        } else {
            p3
        };
        let published = if p4.finished {
            or_else(p4.finish_time_ms, real_time)
        } else {
            real_time
        };
        let actions = Actions {
            start,
            split: ends && timer == TimerState::Running,
            real_time_ms: published,
            ..no_actions()
        };
        // We act only on a level read twice in a row.
        let confirmed = p4.seen matches Some(s) && s.level == now.level;
        let decided = if confirmed {
            p4.decision(timer, now, actions)
        } else {
            actions
        };
        (
            Policy {
                prev: if confirmed {
                    Some(now)
                } else {
                    p4.prev
                },
                seen: Some(now),
                ..p4
            },
            decided,
        )
    }

    /// What one tick does: the next policy and the actions to execute.
    pub closed spec fn step(self, timer: TimerState, read: Option<State>) -> (Policy, Actions) {
        match read {
            None => self.after_no_game(timer),
            Some(now) => self.after_read(timer, now),
        }
    }

    pub fn new() -> (p: Policy)
        ensures
            p == Policy::initial(),
            p.in_range(),
    {
        Policy {
            prev: None,
            seen: None,
            saw_no_game: false,
            launched: false,
            origin: None,
            duration_seen: 0,
            had_game: false,
            lost: 0,
            heartbeat: 0,
            frozen: 0,
            finished: false,
            finish_time_ms: None,
        }
    }

    /// One tick. `read` is None when no game could be read.
    ///
    /// Any state is taken. The times are `i64` subtractions that wrap on
    /// overflow, as in the module LiveSplit loads; the game clock and the
    /// levels are compared exactly. While every counter read stays within
    /// `COUNTER_LIMIT`, nothing wraps.
    pub fn tick(&mut self, timer: TimerState, read: Option<State>) -> (actions: Actions)
        ensures
            (*final(self), actions) == old(self).step(timer, read),
            old(self).in_range() && (read matches Some(s) ==> s.in_range()) ==> final(self).in_range(),
    {
        let now = match read {
            None => {
                return self.no_game(timer);
            },
            Some(now) => now,
        };

        let mut actions = Actions::nothing();
        self.lost = 0;
        self.had_game = true;

        // A game appears where there was none: that is a launch.
        if self.saw_no_game {
            self.saw_no_game = false;
            self.launched = true;
        }
        // `fl_gameOver` is the exact end-of-game signal. A finished run must
        // survive its own end: game over arrives fourteen seconds after the
        // elevator.

        if now.game_over {
            if timer == TimerState::Running && !self.finished {
                actions.reset = true;
            }
            self.forget();
            actions.drop_resolution = true;
            return actions;
        }
        // `frameTimer` advances every frame while this GameMode is the one
        // that runs. If it is frozen, the object is dead.

        if now.frame_timer == self.heartbeat {
            self.frozen = self.frozen.saturating_add(1);
            if self.frozen >= STALE_TICKS {
                self.forget();
                actions.drop_resolution = true;
                return actions;
            }
        } else {
            self.heartbeat = now.frame_timer;
            self.frozen = 0;
        }
        self.live_read(timer, now)
    }

    fn live_read(&mut self, timer: TimerState, now: State) -> (actions: Actions)
        requires
            !now.game_over,
        ensures
            (*final(self), actions) == old(self).after_live_read(timer, now),
            old(self).in_range() && now.in_range() ==> final(self).in_range(),
    {
        let mut actions = Actions::nothing();
        // Only two counters can go backwards, and only from one game to the
        // next: `duration`, which restarts at zero with the GameMode, and
        // `Std.getTimer()`, which restarts with the plugin process. When
        // either one goes backwards, the origin belongs to the previous game.
        let stale_origin = match self.origin {
            Some(o) => now.frame_timer < o,
            None => false,
        };
        if stale_origin || now.duration_ms < self.duration_seen {
            self.origin = None;
        }
        self.duration_seen = now.duration_ms;

        // The official start is the frame where `fl_lock` goes false: the
        // black screen ends and level 0 appears. `duration` only runs from
        // that same unlock, so a late resolution rebuilds the origin exactly.
        if self.origin.is_none() && !now.locked {
            self.origin = Some(now.frame_timer.wrapping_sub(now.duration_ms));
            // A new origin is a new run. Whatever the last one ended as, it is
            // over.
            self.finished = false;
            self.finish_time_ms = None;
            if self.launched && timer == TimerState::NotRunning {
                actions.start = true;
            }
        }
        actions.real_time_ms = match self.origin {
            Some(o) => Some(now.frame_timer.wrapping_sub(o)),
            None => None,
        };

        // The end of the run: the player enters the elevator. We act when the
        // sequence starts, and only then: it stays started for fourteen
        // seconds. The main world only, like a level crossing.
        let rises = match self.seen {
            Some(s) => !s.end_sequence.started(),
            None => false,
        };
        if now.end_sequence.started() && now.dim == 0 && !self.finished && rises {
            self.finished = true;
            // The sequence dates itself. So the split lands where the run
            // ended, not where we noticed it.
            let since = now.end_sequence.since_the_elevator_ms();
            self.finish_time_ms = match actions.real_time_ms {
                Some(ms) => Some(ms.wrapping_sub(since)),
                None => None,
            };
            if timer == TimerState::Running {
                actions.split = true;
            }
        }
        if self.finished {
            actions.real_time_ms = match self.finish_time_ms {
                Some(t) => Some(t),
                None => actions.real_time_ms,
            };
        }

        // We act only on a level read twice in a row. `Adventure.nextLevel`
        // writes `currentId` three times in the same frame, and nothing
        // synchronises our read with the game frame.
        let confirmed = match self.seen {
            Some(s) => s.level == now.level,
            None => false,
        };
        if confirmed {
            self.decide(timer, &now, &mut actions);
            self.prev = Some(now);
        }
        self.seen = Some(now);
        actions
    }

    fn no_game(&mut self, timer: TimerState) -> (actions: Actions)
        ensures
            (*final(self), actions) == old(self).after_no_game(timer),
            old(self).in_range() ==> final(self).in_range(),
    {
        let mut actions = Actions::nothing();
        actions.drop_resolution = true;
        self.saw_no_game = true;
        self.prev = None;
        self.seen = None;

        // Count lost reads only after we have seen a game. Not finding one
        // yet is not the same as having lost one.
        if self.had_game {
            self.lost = self.lost.saturating_add(1);
            // Not after a finished run: losing the game is the normal end of
            // a run that succeeded. `==`, not `>=`: this fires once.
            if self.lost == LOST_BEFORE_RESET && timer == TimerState::Running && !self.finished {
                actions.reset = true;
            }
        }
        actions
    }

    /// Forgets the game, but **not** that the run is finished.
    ///
    /// `finished` outlives the game on purpose: game over and the loss of the
    /// plugin both arrive after the elevator, and both would otherwise reset a
    /// run that is already over. It is cleared when a new origin is set.
    fn forget(&mut self)
        ensures
            *final(self) == old(self).forgotten(),
            old(self).in_range() ==> final(self).in_range(),
    {
        self.prev = None;
        self.seen = None;
        self.saw_no_game = true;
        // The origin belongs to the game that just ended.
        self.origin = None;
        self.launched = false;
        self.duration_seen = 0;
    }

    fn decide(&self, timer: TimerState, now: &State, actions: &mut Actions)
        ensures
            *final(actions) == self.decision(timer, *now, *old(actions)),
    {
        // A finished run decides nothing more.
        if self.finished {
            return;
        }
        let prev = match self.prev {
            None => {
                return;
            },
            Some(prev) => prev,
        };

        // A finished timer does not accept `start`. It must be reset first.
        if timer == TimerState::Ended && now.level == FIRST_LEVEL {
            actions.reset = true;
            actions.start = true;
            return;
        }
        // The game clock goes backwards: another game started and we did not
        // see the transition.

        if (now.chrono_ms as i128) + (CLOCK_SLACK_MS as i128) < (prev.chrono_ms as i128) {
            // A timer state we cannot tell makes nothing happen.
            if timer == TimerState::Running {
                actions.reset = true;
            }
            if timer != TimerState::Unknown {
                actions.start = true;
            }
            return;
        }
        // Any forward progress counts, not only `+1`: one split per crossing,
        // whatever the size of the move. Only forward counts.

        if timer == TimerState::Running && now.level > prev.level && now.dim == 0 {
            actions.split = true;
            actions.skips = skips_after((now.level as i128) - (prev.level as i128));
        }
    }
}

impl Default for Policy {
    fn default() -> (p: Policy)
        ensures
            p == Policy::initial(),
    {
        Policy::new()
    }
}


// -- the laws --------------------------------------------------------------

/// A skip is never sent alone: every path that refuses the split refuses the
/// skips with it. And a warp carries the player over two levels at most.
pub proof fn a_skip_comes_only_with_its_split(p: Policy, timer: TimerState, read: Option<State>)
    ensures
        ({
            let a = p.step(timer, read).1;
            &&& a.skips > 0 ==> a.split
            &&& a.skips < WARP_REACH
        }),
{
}

/// Nothing splits unless the timer runs, and an unknown timer state neither
/// splits nor resets.
pub proof fn only_a_running_timer_splits(p: Policy, timer: TimerState, read: Option<State>)
    ensures
        ({
            let a = p.step(timer, read).1;
            &&& a.split ==> timer == TimerState::Running
            &&& a.reset ==> timer == TimerState::Running || timer == TimerState::Ended
        }),
{
}

/// A new policy holds nothing: no run finished, no origin, no game seen, no
/// tick lost, and the frame timer of its last read is zero.
pub proof fn a_new_policy_knows_nothing()
    ensures
        Policy::initial().in_range(),
        !Policy::initial().is_finished(),
        Policy::initial().finish_time() is None,
        Policy::initial().time_origin() is None,
        !Policy::initial().has_seen_a_game(),
        Policy::initial().lost_ticks() == 0,
        Policy::initial().last_frame() == 0,
{
}

/// A game already running when the splitter attaches is no launch: the
/// first read of a new policy starts nothing, splits nothing, resets
/// nothing, and publishes the time the game says it has run once it is
/// unlocked.
///
/// The law holds where the subtractions are exact: on counters beyond
/// `COUNTER_LIMIT` they wrap, and the time published wraps with them.
pub proof fn a_game_found_running_is_no_launch(t: TimerState, s: State)
    requires
        s.in_range(),
        !s.game_over,
    ensures
        ({
            let a = Policy::initial().step(t, Some(s)).1;
            &&& !a.start && !a.split && !a.reset && a.skips == 0
            &&& a.real_time_ms == (if s.locked {
                None
            } else {
                Some(s.duration_ms)
            })
        }),
{
}

/// A tick without a game drops the resolution and does nothing else, but
/// for one reset: when a game was seen, this loss is the one that reaches
/// `LOST_BEFORE_RESET`, the timer runs and the run is not finished.
pub proof fn a_tick_without_a_game(p: Policy, t: TimerState)
    ensures
        p.step(t, None).1 == (Actions {
            reset: p.has_seen_a_game() && p.lost_ticks() + 1 == LOST_BEFORE_RESET && t
                == TimerState::Running && !p.is_finished(),
            drop_resolution: true,
            ..no_actions()
        }),
        p.step(t, None).0.lost_ticks() == (if !p.has_seen_a_game() {
            p.lost_ticks() as int
        } else if p.lost_ticks() == u32::MAX {
            u32::MAX as int
        } else {
            p.lost_ticks() + 1
        }),
{
}

/// The game over drops the resolution, resets a run that is not finished
/// while the timer runs, and does nothing else. The next game, read unlocked
/// on a new frame, gets a new origin: it publishes the time it says it has
/// run, and starts the timer if it is not running.
///
/// The law holds where the subtractions are exact: on counters beyond
/// `COUNTER_LIMIT` they wrap, and the time published wraps with them.
pub proof fn after_the_game_over_a_new_game_gets_a_new_origin(
    p: Policy,
    t: TimerState,
    s: State,
    t2: TimerState,
    s2: State,
)
    requires
        s2.in_range(),
        s.game_over,
        !s2.game_over,
        !s2.locked,
        s2.frame_timer != p.last_frame(),
    ensures
        ({
            let (q, a) = p.step(t, Some(s));
            let a2 = q.step(t2, Some(s2)).1;
            &&& a == (Actions {
                reset: t == TimerState::Running && !p.is_finished(),
                drop_resolution: true,
                ..no_actions()
            })
            &&& q.time_origin() is None
            &&& a2.real_time_ms == Some(s2.duration_ms)
            &&& a2.start == (t2 == TimerState::NotRunning)
            &&& !a2.split && !a2.reset
        }),
{
}

/// The time follows the frame timer exactly, pauses and level changes
/// included: from a read that published a time and left the run going, a
/// later read of the same live game publishes that time plus what the frame
/// timer advanced.
///
/// The law holds where the subtractions are exact: on counters beyond
/// `COUNTER_LIMIT` they wrap, and the time published wraps with them.
pub proof fn the_time_follows_the_frame_timer(
    p: Policy,
    t1: TimerState,
    s1: State,
    t2: TimerState,
    s2: State,
)
    requires
        p.in_range(),
        s1.in_range(),
        s2.in_range(),
        !s1.game_over,
        !s2.game_over,
        !s2.end_sequence.is_started(),
        s2.frame_timer > s1.frame_timer,
        s2.duration_ms >= s1.duration_ms,
        p.step(t1, Some(s1)).1.real_time_ms is Some,
        p.step(t1, Some(s1)).1.real_time_ms->0 >= 0,
        !p.step(t1, Some(s1)).0.is_finished(),
    ensures
        p.step(t1, Some(s1)).0.step(t2, Some(s2)).1.real_time_ms == Some(
            (p.step(t1, Some(s1)).1.real_time_ms->0 + (s2.frame_timer - s1.frame_timer)) as i64,
        ),
{
}

/// From a new policy, with the timer running: a level read twice, then
/// another read twice, splits on the second read of the other one exactly
/// when it is higher and in the main world, with the skips of the warp. It
/// neither starts nor resets.
pub proof fn a_new_policy_splits_on_a_level_crossed(x: State, s: State)
    requires
        !x.game_over && !s.game_over,
        !x.end_sequence.is_started() && !s.end_sequence.is_started(),
        s.chrono_ms + CLOCK_SLACK_MS >= x.chrono_ms,
    ensures
        ({
            let r = TimerState::Running;
            let q1 = Policy::initial().step(r, Some(x)).0;
            let q2 = q1.step(r, Some(x)).0;
            let q3 = q2.step(r, Some(s)).0;
            let a = q3.step(r, Some(s)).1;
            &&& a.split == (s.level > x.level && s.dim == 0)
            &&& a.skips == (if a.split {
                skips_for(s.level - x.level)
            } else {
                0
            })
            &&& !a.reset && !a.start
        }),
{
    let r = TimerState::Running;
    let q1 = Policy::initial().step(r, Some(x)).0;
    assert(!q1.finished && q1.seen == Some(x) && q1.frozen <= 1);
    let q2 = q1.step(r, Some(x)).0;
    assert(!q2.finished && q2.seen == Some(x) && q2.prev == Some(x) && q2.frozen <= 2);
    let q3 = q2.step(r, Some(s)).0;
    assert(!q3.finished && q3.seen == Some(s) && q3.frozen <= 3);
    assert(q3.prev == Some(x) || (s.level == x.level && q3.prev == Some(s)));
}

/// A timer state we cannot tell makes nothing happen: no reset, no start,
/// no split and no skip, whatever is read.
pub proof fn an_unknown_timer_makes_nothing_happen(p: Policy, read: Option<State>)
    ensures
        ({
            let a = p.step(TimerState::Unknown, read).1;
            !a.reset && !a.start && !a.split && a.skips == 0
        }),
{
}

/// A finished run survives its own end: neither the game over nor the loss
/// of the plugin that follow the elevator resets it.
pub proof fn a_finished_run_is_never_reset(p: Policy, timer: TimerState, read: Option<State>)
    ensures
        p.step(timer, read).0.is_finished() ==> !p.step(timer, read).1.reset,
{
}

/// The time stops at the elevator: while the run is finished, the only time
/// published is the time of the elevator.
pub proof fn the_time_stops_at_the_elevator(p: Policy, timer: TimerState, read: Option<State>)
    ensures
        ({
            let (q, a) = p.step(timer, read);
            q.is_finished() && q.finish_time() is Some ==> a.real_time_ms is None
                || a.real_time_ms == q.finish_time()
        }),
{
}

/// While a run goes on, the time published is the frame timer measured from
/// the origin. The origin is set once per game, so nothing can drift.
pub proof fn the_time_is_measured_from_the_origin(
    p: Policy,
    timer: TimerState,
    now: State,
)
    ensures
        ({
            let (q, a) = p.step(timer, Some(now));
            match q.time_origin() {
                Some(o) => !q.is_finished() ==> a.real_time_ms == Some(now.frame_timer.wrapping_sub(o)),
                None => true,
            }
        }),
{
}

/// Losing the resolution keeps the origin: the resolution is dropped and
/// taken again during a game, and rebuilding the origin then would place it
/// too late. Only a counter that goes backwards, or the end of the game, moves
/// it.
pub proof fn a_lost_resolution_keeps_the_origin(p: Policy, timer: TimerState)
    ensures
        ({
            let (q, a) = p.step(timer, None);
            &&& q.time_origin() == p.time_origin()
            &&& q.is_finished() == p.is_finished()
            &&& a.drop_resolution
            &&& a.real_time_ms is None
        }),
{
}

/// Not finding a game yet is not having lost one: before any game was read,
/// no tick resets the timer.
pub proof fn no_reset_before_a_game_was_seen(p: Policy, timer: TimerState)
    requires
        !p.has_seen_a_game(),
    ensures
        !p.step(timer, None).1.reset,
        !p.step(timer, None).0.has_seen_a_game(),
{
}

/// The reset for a lost game fires once: on the tick the count of lost reads
/// reaches its limit, and never on the ticks that follow.
pub proof fn a_lost_game_resets_once(p: Policy, timer: TimerState)
    ensures
        p.step(timer, None).1.reset ==> p.step(timer, None).0.lost_ticks() == LOST_BEFORE_RESET
            && p.lost_ticks() == LOST_BEFORE_RESET - 1,
{
}

/// The published time never goes backwards inside a run.
///
/// Two ticks in a row, in the same run -- the origin is the same after both
/// -- read a frame timer that does not go backwards, by more than the end
/// sequence says the run has already been over. A run that is over stays
/// over with the time of its elevator.
///
/// The law holds where the subtractions are exact: on counters beyond
/// `COUNTER_LIMIT` they wrap, and the time published wraps with them.
pub proof fn the_published_time_never_goes_backwards(
    p: Policy,
    timer1: TimerState,
    first: State,
    timer2: TimerState,
    second: State,
)
    requires
        p.in_range(),
        first.in_range(),
        second.in_range(),
        second.frame_timer - second.end_sequence.gap_ms() >= first.frame_timer,
        p.step(timer1, Some(first)).0.time_origin() is Some,
        p.step(timer1, Some(first)).0.step(timer2, Some(second)).0.time_origin() == p.step(
            timer1,
            Some(first),
        ).0.time_origin(),
        p.step(timer1, Some(first)).0.is_finished() ==> p.step(timer1, Some(first)).0.step(
            timer2,
            Some(second),
        ).0.is_finished() && p.step(timer1, Some(first)).0.step(
            timer2,
            Some(second),
        ).0.finish_time() == p.step(timer1, Some(first)).0.finish_time(),
    ensures
        ({
            let (q1, a1) = p.step(timer1, Some(first));
            let (q2, a2) = q1.step(timer2, Some(second));
            a1.real_time_ms matches Some(t1) && a2.real_time_ms matches Some(t2) && t1 <= t2
        }),
{
    let (q1, a1) = p.step(timer1, Some(first));
    let (q2, a2) = q1.step(timer2, Some(second));
}

/// The game over resets a run: a game that ends while the timer runs, and
/// before the elevator, resets the timer and drops the resolution.
pub proof fn the_game_over_resets_the_run(p: Policy, now: State)
    requires
        now.game_over,
        !p.is_finished(),
    ensures
        ({
            let a = p.step(TimerState::Running, Some(now)).1;
            a.reset && a.drop_resolution && !a.split && !a.start
        }),
{
}

/// A game that appears where there was none starts the run, on the tick it
/// unlocks: after a tick without a game, the read of a game that is neither
/// locked nor over, with no origin set and the timer not running, starts the
/// timer and publishes the time the game says it has run.
///
/// The law holds where the subtractions are exact: on counters beyond
/// `COUNTER_LIMIT` they wrap, and the time published wraps with them.
pub proof fn a_game_that_appears_starts_the_run(p: Policy, now: State)
    requires
        now.in_range(),
        p.time_origin() is None,
        !now.locked,
        !now.game_over,
        now.frame_timer != p.last_frame(),
    ensures
        ({
            let q = p.step(TimerState::NotRunning, None).0;
            let (r, a) = q.step(TimerState::NotRunning, Some(now));
            &&& a.start
            &&& a.real_time_ms == Some(now.duration_ms)
            &&& !a.split && !a.reset
            &&& r.time_origin() == Some((now.frame_timer - now.duration_ms) as i64)
        }),
{
}

/// The elevator splits once more: while the timer runs, a read of the main
/// world where the end sequence has started, right after a read of the same
/// live game where it had not, splits and finishes the run.
pub proof fn the_elevator_splits(p: Policy, before: State, now: State)
    requires
        !p.is_finished(),
        !before.game_over && !now.game_over,
        before.frame_timer != p.last_frame(),
        now.frame_timer != before.frame_timer,
        !before.end_sequence.is_started(),
        now.end_sequence.is_started(),
        now.dim == 0,
    ensures
        ({
            let r = TimerState::Running;
            let q = p.step(r, Some(before)).0;
            let (q2, a) = q.step(r, Some(now));
            a.split && q2.is_finished()
        }),
{
    let r = TimerState::Running;
    let q = p.step(r, Some(before)).0;
    assert(!q.finished && q.seen == Some(before) && q.heartbeat == before.frame_timer);
}

/// Every level crossed is split: a level read twice, then a higher one read
/// twice, while the timer runs, splits on the second read of the higher one.
///
/// The reads belong to one live game: its frame timer moves, it is not over,
/// the elevator is not reached, the game clock does not go back, and the
/// higher level is in the main world.
pub proof fn every_level_crossed_is_split(p: Policy, a1: State, a2: State, b1: State, b2: State)
    requires
        !p.is_finished(),
        a1.frame_timer != p.last_frame(),
        a2.frame_timer != a1.frame_timer,
        b1.frame_timer != a2.frame_timer,
        b2.frame_timer != b1.frame_timer,
        !a1.game_over && !a2.game_over && !b1.game_over && !b2.game_over,
        !a1.end_sequence.is_started() && !a2.end_sequence.is_started()
            && !b1.end_sequence.is_started() && !b2.end_sequence.is_started(),
        a1.level == a2.level,
        b1.level == b2.level,
        a2.level < b1.level,
        b2.dim == 0,
        b2.chrono_ms + CLOCK_SLACK_MS >= a2.chrono_ms,
    ensures
        ({
            let r = TimerState::Running;
            let q1 = p.step(r, Some(a1)).0;
            let q2 = q1.step(r, Some(a2)).0;
            let q3 = q2.step(r, Some(b1)).0;
            let a = q3.step(r, Some(b2)).1;
            a.split && a.skips == skips_for(b2.level - a2.level)
        }),
{
    let r = TimerState::Running;
    let q1 = p.step(r, Some(a1)).0;
    assert(!q1.finished && q1.seen == Some(a1) && q1.heartbeat == a1.frame_timer);
    let q2 = q1.step(r, Some(a2)).0;
    assert(!q2.finished && q2.seen == Some(a2) && q2.prev == Some(a2) && q2.heartbeat
        == a2.frame_timer);
    let q3 = q2.step(r, Some(b1)).0;
    assert(!q3.finished && q3.seen == Some(b1) && q3.prev == Some(a2) && q3.heartbeat
        == b1.frame_timer);
}


/// The black screen before level 0 neither starts the timer nor publishes a
/// time: a locked first read of a game, in a run that has no origin yet.
pub proof fn a_locked_read_neither_starts_nor_publishes(p: Policy, t: TimerState, now: State)
    requires
        p.time_origin() is None,
        p.last_read() is None,
        !p.is_finished(),
        now.locked,
        !now.game_over,
    ensures
        ({
            let a = p.step(t, Some(now)).1;
            !a.start && a.real_time_ms is None
        }),
{
}

/// A level is acted on only once it is read twice in a row: the game writes
/// the level several times inside one frame, and a split that is not the
/// elevator's comes only from a read of the level the last read held.
pub proof fn a_level_is_acted_on_when_read_twice(p: Policy, t: TimerState, now: State)
    ensures
        ({
            let a = p.step(t, Some(now)).1;
            (a.split && !now.end_sequence.is_started()) || a.skips > 0 ==> (p.last_read() matches Some(
                s,
            ) && s.level == now.level)
        }),
{
}

/// The elevator dates the end of the run: on the read that finishes it, the
/// time published is the frame timer measured from the origin, less what
/// the end sequence says has passed since the elevator.
pub proof fn the_elevator_dates_the_end_of_the_run(p: Policy, t: TimerState, now: State)
    requires
        !p.is_finished(),
    ensures
        ({
            let (q, a) = p.step(t, Some(now));
            q.is_finished() ==> a.real_time_ms == match q.time_origin() {
                Some(o) => Some(
                    now.frame_timer.wrapping_sub(o).wrapping_sub(now.end_sequence.gap_ms() as i64),
                ),
                None => None,
            }
        }),
{
}


/// A timer whose run has ended is restarted only by a new game: a confirmed
/// read of level 0, or a game clock that went back by more than
/// `CLOCK_SLACK_MS` since the state the policy acted on. A game that simply
/// goes on neither resets nor starts it.
pub proof fn an_ended_timer_restarts_only_for_a_new_game(p: Policy, now: State)
    ensures
        ({
            let a = p.step(TimerState::Ended, Some(now)).1;
            a.reset || a.start ==> now.level == FIRST_LEVEL || (p.last_confirmed() matches Some(
                prev,
            ) && now.chrono_ms + CLOCK_SLACK_MS < prev.chrono_ms)
        }),
{
}

/// And a confirmed read of level 0 does restart it: with the timer ended,
/// the second read in a row of level 0, in a live game on a new frame,
/// resets the timer and starts a new run.
pub proof fn level_zero_read_twice_restarts_an_ended_timer(p: Policy, now: State)
    requires
        !p.is_finished(),
        p.last_confirmed() is Some,
        p.last_read() matches Some(s) && s.level == FIRST_LEVEL,
        now.level == FIRST_LEVEL,
        now.frame_timer != p.last_frame(),
        !now.game_over,
        !now.end_sequence.is_started(),
    ensures
        ({
            let a = p.step(TimerState::Ended, Some(now)).1;
            a.reset && a.start
        }),
{
}

} // verus!
