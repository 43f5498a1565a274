use hammerfest_autosplitter::pacing::Pacing;

/// A heap that has finished loading. It stops growing, so the wait is
/// what decides.
const SETTLED: u64 = 80 << 20;

/// How many ticks the pacing refuses before it allows a scan again.
fn ticks_refused(p: &mut Pacing, heap: u64) -> u32 {
    let mut refused = 0;
    while !p.may_scan(heap) {
        refused += 1;
        assert!(refused < 1_000, "the wait never ends");
    }
    refused
}

/// @spec pacing::the-first-scan-waits-for-nothing
#[test]
fn the_first_scan_happens_on_the_first_tick() {
    assert!(Pacing::new().may_scan(SETTLED));
}

/// @spec pacing::a-failed-scan-waits-longer-each-time
#[test]
fn a_failed_scan_waits_before_the_next_one() {
    let mut p = Pacing::new();
    p.may_scan(SETTLED);
    p.scan_failed();

    assert_eq!(ticks_refused(&mut p, SETTLED), 20);
}

/// @spec pacing::a-failed-scan-waits-longer-each-time
#[test]
fn the_wait_grows_with_every_failure() {
    let mut p = Pacing::new();
    p.may_scan(SETTLED);

    let mut waits = [0u32; 3];
    for wait in &mut waits {
        p.scan_failed();
        *wait = ticks_refused(&mut p, SETTLED);
    }

    assert_eq!(waits, [20, 40, 60]);
}

/// @spec pacing::a-failed-scan-waits-longer-each-time
#[test]
fn the_wait_stops_at_its_ceiling() {
    let mut p = Pacing::new();
    p.may_scan(SETTLED);
    for _ in 0..10 {
        p.scan_failed();
        ticks_refused(&mut p, SETTLED);
    }

    p.scan_failed();

    assert_eq!(ticks_refused(&mut p, SETTLED), 60);
}

/// @spec pacing::a-heap-that-grows-scans-at-once
#[test]
fn a_heap_that_grows_scans_at_once() {
    let mut p = Pacing::new();
    p.may_scan(SETTLED);
    p.scan_failed();

    assert!(p.may_scan(SETTLED + (4 << 20) + 1));
}

/// @spec pacing::allocator-noise-is-not-growth
#[test]
fn allocator_noise_does_not_scan() {
    let mut p = Pacing::new();
    p.may_scan(SETTLED);
    p.scan_failed();

    assert!(!p.may_scan(SETTLED + (512 << 10)));
}

/// @spec pacing::a-game-found-clears-the-wait
#[test]
fn a_game_found_starts_the_wait_again_at_its_shortest() {
    let mut p = Pacing::new();
    p.may_scan(SETTLED);
    for _ in 0..5 {
        p.scan_failed();
        ticks_refused(&mut p, SETTLED);
    }

    p.game_found();
    p.scan_failed();

    assert_eq!(ticks_refused(&mut p, SETTLED), 20);
}

/// @spec pacing::a-game-lost-scans-at-once
#[test]
fn a_game_lost_scans_on_the_next_tick() {
    let mut p = Pacing::new();
    p.may_scan(SETTLED);
    p.game_found();
    p.scan_failed();

    p.game_lost();

    assert!(p.may_scan(SETTLED));
}

/// @spec pacing::only-a-game-held-can-be-lost
#[test]
fn a_resolution_dropped_in_the_menus_keeps_the_wait() {
    let mut p = Pacing::new();
    p.may_scan(SETTLED);
    p.scan_failed();

    p.game_lost();

    assert_eq!(ticks_refused(&mut p, SETTLED), 20);
}

/// @spec pacing::only-a-game-held-can-be-lost
#[test]
fn a_game_lost_twice_is_lost_once() {
    let mut p = Pacing::new();
    p.may_scan(SETTLED);
    p.game_found();
    p.game_lost();
    p.may_scan(SETTLED);
    p.scan_failed();

    p.game_lost();

    assert_eq!(ticks_refused(&mut p, SETTLED), 20);
}

#[test]
fn the_first_scan_happens_whatever_the_size_of_the_heap() {
    assert!(Pacing::new().may_scan(u64::MAX));
    let mut p = Pacing::new();
    assert!(p.may_scan(u64::MAX));
    p.scan_failed();
    // The heap of the last scan plus the growth does not fit: no growth.
    assert!(!p.may_scan(u64::MAX));
}
