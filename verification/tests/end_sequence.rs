use hammerfest_autosplitter::end_sequence::EndSequence;
use hammerfest_autosplitter::heap::Number;

/// `Data.SECOND * 14`: the length of the cinematic, in game cycles.
const FULL_CYCLES: f64 = 448.0;

/// A count of cycles, as the game stores it.
fn cycles(count: f64) -> Number {
    Number::Double(count.to_bits())
}

#[test]
fn has_not_started_by_default() {
    assert!(!EndSequence::default().started());
    assert!(!EndSequence::default().started());
    assert_eq!(EndSequence::default().since_the_elevator_ms(), 0);
}

#[test]
fn starts_at_the_full_length_with_no_gap() {
    let s = EndSequence::from_cycles(cycles(FULL_CYCLES));
    assert!(s.started());
    assert_eq!(s.since_the_elevator_ms(), 0);
}

#[test]
fn measures_the_gap_from_what_is_left() {
    // 3.2 cycles at 31.25 ms each: 100 ms of cinematic already played.
    let s = EndSequence::from_cycles(cycles(FULL_CYCLES - 3.2));
    assert_eq!(s.since_the_elevator_ms(), 100);
}

#[test]
fn refuses_a_gap_that_is_too_large_to_be_real() {
    // Ten seconds in. Another game, another cinematic: we correct nothing.
    let s = EndSequence::from_cycles(cycles(FULL_CYCLES - 320.0));
    assert!(s.started());
    assert_eq!(s.since_the_elevator_ms(), 0);
}

#[test]
fn a_negative_timer_is_not_a_sequence() {
    // `main()` takes the timer below zero on the frame it calls game over.
    assert!(!EndSequence::from_cycles(cycles(-1.0)).started());
}
