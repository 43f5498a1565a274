use hammerfest_autosplitter::end_sequence::EndSequence;
use hammerfest_autosplitter::heap::Number;
use hammerfest_autosplitter::policy::{
    Actions, Policy, State, TimerState, LOST_BEFORE_RESET, STALE_TICKS,
};

/// `Data.SECOND * 14`: the length of the cinematic, in game cycles.
const FULL_CYCLES: f64 = 448.0;

/// The end sequence `GameMode.endModeTimer` says, in game cycles.
fn from_cycles(cycles: f64) -> EndSequence {
    EndSequence::from_cycles(Number::Double(cycles.to_bits()))
}

/// A live game state. Each test changes only what matters to it.
///
/// `frameTimer` runs from the start of the plugin, `gameChrono` from the
/// construction of the GameMode, and `duration` from the moment level 0
/// appears. The 550 ms between the last two are measured: 535, 539, 547
/// and 562 ms over four games.
fn at(level: i64, chrono_ms: i64) -> State {
    State {
        level,
        previous: level - 1,
        chrono_ms,
        frame_timer: 1_000 + chrono_ms,
        dim: 0,
        game_over: false,
        locked: false,
        duration_ms: (chrono_ms - 550).max(0),
        end_sequence: EndSequence::default(),
    }
}

/// The same state, read in the frame the player enters the elevator.
///
/// The level does not change: the run ends inside the last level, not by
/// leaving it.
fn elevator(level: i64, chrono_ms: i64) -> State {
    elevator_since(level, chrono_ms, 0.0)
}

/// The same, read `elapsed` game cycles after the elevator. One cycle is
/// 31.25 ms.
fn elevator_since(level: i64, chrono_ms: i64, elapsed: f64) -> State {
    State {
        end_sequence: from_cycles(FULL_CYCLES - elapsed),
        ..at(level, chrono_ms)
    }
}

/// The same state, but locked: black screen, transition, or pause.
fn locked(level: i64, chrono_ms: i64) -> State {
    State {
        locked: true,
        ..at(level, chrono_ms)
    }
}

/// Plays a series of reads and returns the actions of the last tick.
///
/// The caller supplies the timer state. The policy knows it only from what
/// we tell it, which saves us from simulating LiveSplit.
struct Run {
    policy: Policy,
    timer: TimerState,
}

impl Run {
    fn new() -> Self {
        Self {
            policy: Policy::new(),
            timer: TimerState::NotRunning,
        }
    }

    fn running(mut self) -> Self {
        self.timer = TimerState::Running;
        self
    }

    fn tick(&mut self, read: Option<State>) -> Actions {
        let actions = self.policy.tick(self.timer, read);
        if actions.reset {
            self.timer = TimerState::NotRunning;
        }
        if actions.start {
            self.timer = TimerState::Running;
        }
        actions
    }

    /// Two identical reads: the policy acts only on a confirmed level.
    fn confirm(&mut self, s: State) -> Actions {
        self.tick(Some(s));
        self.tick(Some(s))
    }
}

// -- start -------------------------------------------------------------

#[test]
fn starts_when_a_game_appears_where_there_was_none() {
    let mut r = Run::new();
    r.tick(None);
    assert!(r.tick(Some(at(0, 3_000))).start);
}

#[test]
fn does_not_start_if_a_game_was_already_running_when_we_attached() {
    // Autosplitter loaded in the middle of a run: the first read is not a
    // launch.
    let mut r = Run::new();
    assert!(!r.tick(Some(at(12, 90_000))).start);
}

#[test]
fn starts_even_if_the_game_clock_is_not_zero() {
    // The game clock runs from the construction of the GameMode, loading
    // and intro included. Requiring a small value stopped every start.
    let mut r = Run::new();
    r.tick(None);
    assert!(r.tick(Some(at(0, 12_000))).start);
}

#[test]
fn starts_even_if_level_0_is_already_behind_us() {
    // A runner leaves level 0 in two seconds. The resolution can take
    // longer than that.
    let mut r = Run::new();
    r.tick(None);
    assert!(r.tick(Some(at(10, 4_000))).start);
}

#[test]
fn does_not_start_while_the_black_screen_lasts() {
    // Level 0 has not appeared yet, so the run has not started. The
    // GameMode exists and gameChrono already runs, but that is not the
    // start.
    let mut r = Run::new();
    r.tick(None);
    let actions = r.tick(Some(locked(0, 300)));
    assert!(!actions.start);
    assert_eq!(actions.real_time_ms, None);
}

// -- origin of real time -----------------------------------------------

#[test]
fn sets_the_origin_on_the_frame_of_the_unlock() {
    // Resolved before the level appears: we see the transition, and
    // `duration` is still zero.
    let mut r = Run::new();
    r.tick(None);
    r.tick(Some(locked(0, 300)));

    let mut start = at(0, 550);
    start.duration_ms = 0;
    let actions = r.tick(Some(start));
    assert!(actions.start);
    assert_eq!(actions.real_time_ms, Some(0));

    // Two seconds later, real time has counted them.
    let mut later = at(0, 2_550);
    later.frame_timer = start.frame_timer + 2_000;
    assert_eq!(r.tick(Some(later)).real_time_ms, Some(2_000));
}

#[test]
fn rebuilds_the_origin_when_the_scan_arrives_late() {
    // The usual case: the scan finishes half a second too late.
    // `duration` runs only from the unlock, so it says by how much. The
    // real time shown is correct on the first read, with no visible catch
    // up.
    let mut r = Run::new();
    r.tick(None);

    let mut late = at(0, 1_150);
    late.duration_ms = 600;
    let actions = r.tick(Some(late));
    assert!(actions.start);
    assert_eq!(actions.real_time_ms, Some(600));
}

#[test]
fn real_time_stops_neither_on_pause_nor_between_levels() {
    // `Chrono.update` runs before the pause test and before the `return`
    // on `fl_lock`. So `frameTimer` follows real time whatever happens.
    // Measured: +13843 ms for 13.9 s of pause.
    let mut r = Run::new().running();
    let start = at(0, 550);
    r.tick(Some(start));

    let mut pause = locked(3, 20_000);
    pause.frame_timer = start.frame_timer + 30_000;
    pause.duration_ms = 12_000; // frozen, this one
    assert_eq!(r.tick(Some(pause)).real_time_ms, Some(30_000));
}

#[test]
fn keeps_the_origin_when_the_resolution_is_lost_then_taken_again() {
    // Dropping the resolution during a game is normal: the anchor dies and
    // we scan again. Rebuilding the origin then would place it too late,
    // by all the time spent between levels that `duration` does not count
    // -- and the timer would go backwards in front of the player.
    let mut r = Run::new().running();
    let start = at(0, 550);
    r.tick(Some(start));

    let mut later = at(6, 40_000);
    later.frame_timer = start.frame_timer + 60_000;
    later.duration_ms = 38_000; // 22 s of transitions, not counted
    assert_eq!(r.tick(Some(later)).real_time_ms, Some(60_000));

    r.tick(None); // resolution lost, scan again

    let mut again = later;
    again.frame_timer += 1_000;
    again.duration_ms += 1_000;
    assert_eq!(r.tick(Some(again)).real_time_ms, Some(61_000));
}

#[test]
fn forgets_the_origin_when_the_clock_goes_backwards() {
    // Another plugin process, so another game: `Std.getTimer()` restarts
    // at zero. Keeping the old origin would give a negative time.
    let mut r = Run::new().running();
    r.tick(Some(at(5, 60_000)));

    let mut fresh = at(0, 550);
    fresh.frame_timer = 900; // the plugin has just started
    fresh.duration_ms = 0;
    assert_eq!(r.tick(Some(fresh)).real_time_ms, Some(0));
}

#[test]
fn starts_from_a_fresh_origin_on_the_next_game() {
    let mut r = Run::new().running();
    r.tick(Some(at(4, 30_000)));
    let mut end = at(4, 31_000);
    end.game_over = true;
    r.tick(Some(end));

    r.tick(None);
    let mut fresh = at(0, 550);
    fresh.frame_timer = 400_000;
    fresh.duration_ms = 0;
    let actions = r.tick(Some(fresh));
    assert!(actions.start);
    assert_eq!(actions.real_time_ms, Some(0));
}

// -- splits ------------------------------------------------------------

#[test]
fn splits_on_a_level_crossed() {
    let mut r = Run::new().running();
    r.confirm(at(3, 10_000));
    assert!(r.confirm(at(4, 20_000)).split);
}

#[test]
fn splits_on_the_level_0_shortcut() {
    // `Adventure.nextLevel` under `fl_warpStart`: 0 -> 10 in one step.
    let mut r = Run::new().running();
    r.confirm(at(0, 5_000));
    assert!(r.confirm(at(10, 9_000)).split);
}

#[test]
fn one_split_only_despite_the_writes_inside_the_same_frame() {
    // The game writes `currentId` as 1, then 0, then 10 in the same frame.
    // Our reads are not synchronised with it. Without confirmation, we
    // would split twice.
    let mut r = Run::new().running();
    r.confirm(at(0, 5_000));
    let mut splits = 0;
    for level in [1, 0, 10, 10] {
        if r.tick(Some(at(level, 9_000))).split {
            splits += 1;
        }
    }
    assert_eq!(splits, 1);
}

#[test]
fn a_level_number_going_backwards_splits_nothing_and_resets_nothing() {
    // Nothing in a run sends the player to a lower level. A death costs a
    // life and puts them back in the same level, without touching
    // `currentId`, and `SpecialManager.warpZone` can only move forward:
    // its arrival is `currentId + w`, and the loop that lowers it stops at
    // `currentId`.
    //
    // So a lower number means one of three things: a level script calling
    // `forcedGoto` backwards, the three writes `Adventure.nextLevel` makes
    // inside one frame, or a misread. None of them is progress, and none
    // of them ends the attempt.
    //
    // A new game is the fourth case, and the game clock catches that one:
    // see `restarts_when_the_game_clock_jumps_backwards`.
    let mut r = Run::new().running();
    r.confirm(at(7, 30_000));

    let back_one = r.confirm(at(6, 31_000));
    assert!(!back_one.split);
    assert!(!back_one.reset);

    let all_the_way = r.confirm(at(0, 32_000));
    assert!(!all_the_way.split);
    assert!(!all_the_way.reset);
}

#[test]
fn does_not_split_in_a_parallel_dimension() {
    let mut r = Run::new().running();
    r.confirm(at(3, 10_000));
    let mut s = at(4, 20_000);
    s.dim = 1;
    assert!(!r.confirm(s).split);
}

#[test]
fn does_not_split_when_the_timer_is_not_running() {
    let mut r = Run::new();
    r.confirm(at(3, 10_000));
    assert!(!r.confirm(at(4, 20_000)).split);
}

// -- warp zones ---------------------------------------------------------

/// @spec crossing::warp-skips-the-levels-never-played
#[test]
fn a_crossing_of_one_level_skips_nothing() {
    let mut r = Run::new().running();
    r.confirm(at(3, 10_000));
    let actions = r.confirm(at(4, 20_000));
    assert!(actions.split);
    assert_eq!(actions.skips, 0);
}

/// @spec crossing::warp-skips-the-levels-never-played
#[test]
fn a_warp_of_two_skips_the_level_it_never_played() {
    // `SpecialManager.warpZone` -> `forcedGoto`: the umbrella. The player
    // never enters level 43, so its segment must record no time, and no
    // gold.
    let mut r = Run::new().running();
    r.confirm(at(42, 100_000));
    let actions = r.confirm(at(44, 110_000));
    assert!(actions.split);
    assert_eq!(actions.skips, 1);
}

/// @spec crossing::warp-skips-the-levels-never-played
#[test]
fn a_warp_of_three_skips_the_two_levels_it_never_played() {
    let mut r = Run::new().running();
    r.confirm(at(42, 100_000));
    let actions = r.confirm(at(45, 110_000));
    assert!(actions.split);
    assert_eq!(actions.skips, 2);
}

/// @spec crossing::a-large-jump-skips-nothing
#[test]
fn the_level_0_shortcut_skips_nothing() {
    // `0 -> 10` happens in every attempt, so the runner plans one segment
    // for it. Nine dead segments would exist only to be skipped.
    let mut r = Run::new().running();
    r.confirm(at(0, 5_000));
    let actions = r.confirm(at(10, 9_000));
    assert!(actions.split);
    assert_eq!(actions.skips, 0);
}

/// @spec crossing::a-large-jump-skips-nothing
#[test]
fn a_jump_wider_than_a_warp_skips_nothing() {
    // `warpZone` advances by at most 3. A wider move is the level 0
    // shortcut read in the middle of its three writes, or a misread.
    // Without the bound, one wrong read would burn the splits file.
    let mut r = Run::new().running();
    r.confirm(at(1, 5_000));
    let actions = r.confirm(at(10, 9_000));
    assert!(actions.split);
    assert_eq!(actions.skips, 0);
}

/// @spec crossing::warp-skips-the-levels-never-played
#[test]
fn nothing_that_does_not_split_ever_skips() {
    // A skip is never sent alone. Every path that refuses the split must
    // refuse the skips with it.
    // Each case starts from its own run: acting on a level makes it the
    // new reference, so chaining them would change what the next one
    // means.
    let mut backwards = Run::new().running();
    backwards.confirm(at(42, 100_000));
    assert_eq!(backwards.confirm(at(40, 101_000)).skips, 0);

    // A death costs a life and leaves `currentId` alone.
    let mut death = Run::new().running();
    death.confirm(at(42, 100_000));
    assert_eq!(death.confirm(at(42, 101_000)).skips, 0);

    let mut parallel = Run::new().running();
    parallel.confirm(at(42, 100_000));
    let mut elsewhere = at(45, 101_000);
    elsewhere.dim = 1;
    assert_eq!(parallel.confirm(elsewhere).skips, 0);

    let mut stopped = Run::new();
    stopped.confirm(at(42, 100_000));
    assert_eq!(stopped.confirm(at(45, 110_000)).skips, 0);
}

/// @spec crossing::one-split-per-crossing
#[test]
fn the_elevator_skips_nothing() {
    // The run ends inside the last level. Nothing is left to skip.
    let mut r = Run::new().running();
    r.confirm(at(103, 600_000));
    let actions = r.tick(Some(elevator(103, 601_000)));
    assert!(actions.split);
    assert_eq!(actions.skips, 0);
}

// -- end of game and dead objects ---------------------------------------

#[test]
fn resets_on_game_over_and_drops_the_resolution() {
    let mut r = Run::new().running();
    r.confirm(at(9, 40_000));
    let mut end = at(9, 41_000);
    end.game_over = true;
    let actions = r.tick(Some(end));
    assert!(actions.reset);
    assert!(actions.drop_resolution);
}

#[test]
fn drops_the_resolution_when_the_heartbeat_freezes() {
    // An abandoned GameMode stays readable, with a plausible level and a
    // plausible clock. Only `frameTimer` gives it away.
    let mut r = Run::new().running();
    let dead = at(9, 40_000);
    let mut actions = Actions::default();
    for _ in 0..STALE_TICKS + 1 {
        actions = r.tick(Some(dead));
    }
    assert!(actions.drop_resolution);
}

#[test]
fn drops_nothing_while_the_heartbeat_advances() {
    let mut r = Run::new().running();
    for i in 0..STALE_TICKS * 2 {
        let s = at(9, 40_000 + i as i64);
        assert!(!r.tick(Some(s)).drop_resolution);
    }
}

#[test]
fn restarts_the_run_when_the_timer_has_already_ended() {
    // The runner reached the last split of their file, so LiveSplit is
    // finished. They launch another game. A finished timer refuses
    // `start`, so it has to be reset first, in that order.
    let mut r = Run::new();
    r.timer = TimerState::Ended;
    r.tick(Some(at(0, 3_000)));
    r.tick(Some(at(0, 3_050)));

    let actions = r.tick(Some(at(0, 3_100)));
    assert!(actions.reset);
    assert!(actions.start);
}

#[test]
fn restarts_when_the_game_clock_jumps_backwards() {
    // A new game began and we never saw the gap: the GameMode was rebuilt
    // and its clock restarted from zero. More than two seconds backwards
    // is not a misread, it is another game.
    let mut r = Run::new().running();
    r.confirm(at(7, 40_000));

    let actions = r.confirm(at(0, 900));
    assert!(actions.reset);
    assert!(actions.start);
}

#[test]
fn an_unknown_timer_state_makes_nothing_happen() {
    // The runtime reported something we cannot read. Doing nothing is the
    // only safe answer to "I cannot tell".
    let mut r = Run::new();
    r.timer = TimerState::Unknown;
    r.confirm(at(3, 10_000));

    let actions = r.confirm(at(4, 20_000));
    assert!(!actions.split);
    assert!(!actions.start);
    assert!(!actions.reset);
}

#[test]
fn an_unknown_timer_starts_nothing_even_when_another_game_begins() {
    // The clock falls back by more than two seconds: with a known timer,
    // that is a reset and a start. With a timer we cannot tell, nothing.
    let mut r = Run::new();
    r.timer = TimerState::Unknown;
    r.confirm(at(7, 40_000));

    let actions = r.confirm(at(0, 900));
    assert!(!actions.reset);
    assert!(!actions.start);
    assert!(!actions.split);
    assert_eq!(actions.skips, 0);
}

// -- the end of the run --------------------------------------------------

#[test]
fn splits_when_the_player_enters_the_elevator() {
    // The last split of the speedrun rule. The level stays at 103: the run
    // ends inside the last level, not by leaving it.
    let mut r = Run::new().running();
    r.confirm(at(103, 600_000));
    assert!(r.tick(Some(elevator(103, 601_000))).split);
}

#[test]
fn splits_once_for_the_whole_end_sequence() {
    // `endModeTimer` stays above zero for fourteen seconds. We act on the
    // rise, so the reads that follow must add nothing.
    let mut r = Run::new().running();
    r.confirm(at(103, 600_000));
    let mut splits = 0;
    for i in 0..400 {
        if r.tick(Some(elevator(103, 601_000 + i))).split {
            splits += 1;
        }
    }
    assert_eq!(splits, 1);
}

#[test]
fn the_time_stops_at_the_elevator() {
    // The game runs for fourteen more seconds, and `frameTimer` with it.
    // The final time must not follow.
    let mut r = Run::new().running();
    let start = at(0, 550);
    r.tick(Some(start));

    let mut end = elevator(103, 600_000);
    end.frame_timer = start.frame_timer + 600_000;
    let finish = r.tick(Some(end)).real_time_ms;
    assert_eq!(finish, Some(600_000));

    let mut later = end;
    later.frame_timer += 14_000;
    assert_eq!(r.tick(Some(later)).real_time_ms, finish);
}

#[test]
fn dates_the_last_split_at_the_frame_of_the_elevator() {
    // We read 100 ms after the elevator. What is left of the cinematic
    // says so, and the final time goes back to the frame that ended the
    // run -- the same trick that dates the start.
    let mut r = Run::new().running();
    let start = at(0, 550);
    r.tick(Some(start));

    let mut late = elevator_since(103, 600_000, 3.2); // 3.2 cycles = 100 ms
    late.frame_timer = start.frame_timer + 600_100;
    let actions = r.tick(Some(late));
    assert!(actions.split);
    assert_eq!(actions.real_time_ms, Some(600_000));
}

#[test]
fn dates_the_last_split_where_it_saw_it_when_the_gap_makes_no_sense() {
    // Another version, another cinematic: the value no longer means what
    // we think. We then keep the time of the read. One read late beats a
    // correction of ten seconds.
    let mut r = Run::new().running();
    let start = at(0, 550);
    r.tick(Some(start));

    let mut late = elevator_since(103, 600_000, 320.0); // 10 s
    late.frame_timer = start.frame_timer + 610_000;
    assert_eq!(r.tick(Some(late)).real_time_ms, Some(610_000));
}

#[test]
fn the_elevator_of_a_parallel_dimension_ends_nothing() {
    // The elevator belongs to the last level of the adventure. Whatever a
    // parallel world does, it is not the end of this run.
    let mut r = Run::new().running();
    r.confirm(at(103, 600_000));

    let mut elsewhere = elevator(103, 601_000);
    elsewhere.dim = 1;
    let actions = r.tick(Some(elsewhere));
    assert!(!actions.split);

    // And the time still moves, because the run is not over.
    let mut later = elsewhere;
    later.frame_timer += 5_000;
    assert!(r.tick(Some(later)).real_time_ms > actions.real_time_ms);
}

#[test]
fn does_not_reset_on_the_game_over_that_follows_the_elevator() {
    // Game over arrives fourteen seconds after the elevator. A reset there
    // would erase the run on the finish line.
    let mut r = Run::new().running();
    r.confirm(at(103, 600_000));
    r.tick(Some(elevator(103, 601_000)));

    let mut over = elevator(103, 615_000);
    over.game_over = true;
    let actions = r.tick(Some(over));
    assert!(!actions.reset);
    assert!(actions.drop_resolution);
}

#[test]
fn does_not_reset_when_the_plugin_dies_after_the_elevator() {
    // `exitGame` navigates to the end page, so the SWF disappears. That is
    // the normal end of a run that succeeded, not an abandon.
    let mut r = Run::new().running();
    r.confirm(at(103, 600_000));
    r.tick(Some(elevator(103, 601_000)));
    for _ in 0..LOST_BEFORE_RESET * 2 {
        assert!(!r.tick(None).reset);
    }
}

#[test]
fn does_not_end_a_run_it_joined_in_the_middle_of_the_sequence() {
    // Resolved during the fourteen seconds: we never saw the rise, and we
    // never saw the run start either. Ending it would invent a time.
    let mut r = Run::new().running();
    assert!(!r.tick(Some(elevator(103, 605_000))).split);
    assert!(!r.tick(Some(elevator(103, 605_100))).split);
}

#[test]
fn the_last_level_alone_ends_nothing() {
    // Reaching level 103 is a crossing like any other. Only the elevator
    // ends the run, so the time must keep moving inside that level.
    let mut r = Run::new().running();
    let start = at(0, 550);
    r.tick(Some(start));
    r.confirm(at(102, 590_000));

    let mut arrive = at(103, 595_000);
    arrive.frame_timer = start.frame_timer + 595_000;
    assert!(r.confirm(arrive).split);

    let mut later = arrive;
    later.frame_timer += 5_000;
    assert_eq!(r.tick(Some(later)).real_time_ms, Some(600_000));
}

#[test]
fn a_new_run_after_a_finished_one_starts_and_moves_again() {
    let mut r = Run::new().running();
    r.confirm(at(103, 600_000));
    r.tick(Some(elevator(103, 601_000)));

    let mut over = elevator(103, 615_000);
    over.game_over = true;
    r.tick(Some(over));
    r.tick(None);
    r.timer = TimerState::NotRunning;

    let mut fresh = at(0, 550);
    fresh.frame_timer = 900_000;
    fresh.duration_ms = 0;
    let actions = r.tick(Some(fresh));
    assert!(actions.start);
    assert_eq!(actions.real_time_ms, Some(0));

    let mut later = fresh;
    later.frame_timer += 3_000;
    later.duration_ms = 3_000;
    assert_eq!(r.tick(Some(later)).real_time_ms, Some(3_000));
}

// -- the invariant -------------------------------------------------------

/// Plays a sequence and returns the last time published.
///
/// Fails the moment the published time goes backwards. That is the one
/// defect a runner sees at once, and no scenario test holds every guard
/// against it at the same time.
fn play(r: &mut Run, reads: &[Option<State>]) -> i64 {
    let mut last = -1;
    for read in reads {
        if let Some(ms) = r.tick(*read).real_time_ms {
            assert!(ms >= last, "the time went backwards: {ms} after {last}");
            last = ms;
        }
    }
    last
}

#[test]
fn the_published_time_never_goes_backwards_inside_a_run() {
    // One whole run, through everything that has ever moved the origin:
    // the black screen, the start, a level shortcut, a game pause, the
    // resolution lost and taken again, then the elevator.
    //
    // `frame_timer` is the only clock that never stops, so it is the one
    // that drives this. `duration` freezes with the pause, as the game
    // does it.
    let read = |level: i64, frame: i64, duration: i64| State {
        level,
        previous: level - 1,
        chrono_ms: duration,
        frame_timer: frame,
        dim: 0,
        game_over: false,
        locked: false,
        duration_ms: duration,
        end_sequence: EndSequence::default(),
    };
    let black_screen = State {
        locked: true,
        ..read(0, 100_000, 0)
    };
    let mut elevator_frame = read(12, 130_100, 12_100);
    elevator_frame.end_sequence = from_cycles(FULL_CYCLES);
    let mut after_the_end = elevator_frame;
    after_the_end.frame_timer += 5_000;

    let mut r = Run::new();
    let final_time = play(
        &mut r,
        &[
            None,                                  // no game yet
            Some(black_screen),                    // loading, level 0 hidden
            Some(read(0, 100_550, 0)),             // the start
            Some(read(0, 102_550, 2_000)),
            Some(read(10, 109_000, 8_450)),        // the level 0 shortcut
            Some(State { locked: true, ..read(10, 123_000, 8_450) }), // paused
            Some(read(10, 124_000, 9_450)),
            None,                                  // resolution lost
            None,
            Some(read(12, 130_000, 12_000)),       // taken again
            Some(elevator_frame),
            Some(after_the_end),                   // the cinematic runs on
        ],
    );

    // The origin is the frame of the unlock, 100_550. The elevator is at
    // 130_100, so the run lasted 29_550 ms -- pause included, as the rule
    // says -- and it must not move afterwards.
    assert_eq!(final_time, 29_550);
}

// -- no game ------------------------------------------------------------

#[test]
fn never_resets_before_a_game_was_seen() {
    // The Flash plugin exists as soon as the application opens. Counting
    // lost reads before the first game reset the timer during the loading
    // screen.
    let mut r = Run::new().running();
    for _ in 0..LOST_BEFORE_RESET * 2 {
        assert!(!r.tick(None).reset);
    }
}

#[test]
fn resets_after_a_game_was_lost_for_long_enough() {
    let mut r = Run::new().running();
    r.confirm(at(5, 20_000));
    let mut reset = false;
    for _ in 0..LOST_BEFORE_RESET + 1 {
        reset |= r.tick(None).reset;
    }
    assert!(reset);
}

#[test]
fn a_new_game_after_a_loss_starts_again() {
    let mut r = Run::new().running();
    r.confirm(at(5, 20_000));
    r.tick(None);
    r.timer = TimerState::NotRunning;
    assert!(r.tick(Some(at(0, 2_000))).start);
}


#[test]
fn a_counter_beyond_the_exact_range_is_still_read() {
    // A huge double saturates `duration` at `i64::MAX`. The state is still a
    // game: the policy ticks with it, and its subtractions wrap as the module
    // computes them.
    let mut p = Policy::new();
    let mut s = at(0, 900);
    s.duration_ms = i64::MAX;
    let frame_timer = s.frame_timer;
    let actions = p.tick(TimerState::NotRunning, Some(s));
    assert!(!actions.drop_resolution);
    let origin = frame_timer.wrapping_sub(i64::MAX);
    assert_eq!(actions.real_time_ms, Some(frame_timer.wrapping_sub(origin)));
}

#[test]
fn a_game_clock_near_the_largest_counter_is_compared_exactly() {
    // `chrono_ms + 2 s` does not fit: the clock has not gone backwards.
    let mut r = Run::new().running();
    let mut before = at(3, 0);
    before.chrono_ms = i64::MAX - 1_000;
    let mut now = at(3, 0);
    now.chrono_ms = i64::MAX;
    now.frame_timer = 5_000;
    r.confirm(before);
    let actions = r.confirm(now);
    assert!(!actions.reset);
    assert!(!actions.start);
}
