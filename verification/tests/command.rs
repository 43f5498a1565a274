use hammerfest_autosplitter::command::Command;
use hammerfest_autosplitter::command::Command::{
    PauseGameTime, Reset, SetGameTime, SkipSplit, Split, Start,
};
use hammerfest_autosplitter::policy::Actions;


fn sent(actions: Actions) -> Vec<Command> {
    actions.commands().iter()
}

/// @spec commands::an-idle-tick-sends-nothing
#[test]
fn a_tick_that_decides_nothing_sends_nothing() {
    assert!(Actions::default().commands().is_empty());
    assert_eq!(sent(Actions::default()), []);
}

/// @spec commands::the-reset-comes-before-the-start
#[test]
fn a_restart_resets_before_it_starts() {
    let restart = Actions {
        reset: true,
        start: true,
        ..Actions::default()
    };

    assert_eq!(sent(restart), [Reset, Start]);
}

/// @spec commands::the-time-is-set-after-the-start
/// @spec commands::the-clock-is-paused-before-it-is-set
#[test]
fn the_time_is_set_after_the_start_and_on_a_paused_clock() {
    let start = Actions {
        start: true,
        real_time_ms: Some(1_200),
        ..Actions::default()
    };

    assert_eq!(sent(start), [Start, PauseGameTime, SetGameTime(1_200)]);
}

/// @spec commands::the-skips-follow-their-split
#[test]
fn the_skips_follow_their_split() {
    let warp = Actions {
        split: true,
        skips: 2,
        ..Actions::default()
    };

    assert_eq!(sent(warp), [Split, SkipSplit, SkipSplit]);
}

#[test]
fn a_skip_without_a_split_sends_nothing() {
    // `skips` counts the levels a warp carried the player over, and it
    // only ever comes with the split it belongs to. A skip alone would
    // consume a segment nobody crossed.
    let stray = Actions {
        skips: 2,
        ..Actions::default()
    };

    assert_eq!(sent(stray), []);
}

#[test]
fn a_full_tick_stays_inside_the_list() {
    let everything = Actions {
        reset: true,
        start: true,
        split: true,
        skips: 2,
        drop_resolution: true,
        real_time_ms: Some(42),
    };

    assert_eq!(
        sent(everything),
        [
            Reset,
            Start,
            Split,
            SkipSplit,
            SkipSplit,
            PauseGameTime,
            SetGameTime(42)
        ]
    );
}
