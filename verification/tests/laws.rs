use hammerfest_autosplitter::avm1::{linux_x64, profiles, windows_x64, Layout};
use hammerfest_autosplitter::diagnostics::{FreshMap, ScanTrace};
use hammerfest_autosplitter::memory::Heap;
use hammerfest_autosplitter::pepper_flash::{measured, Binary};
use hammerfest_autosplitter::policy::{Actions, Policy, State, TimerState};
use hammerfest_autosplitter::end_sequence::EndSequence;

fn a_layout(module: (u64, u64)) -> Layout {
    Layout {
        module,
        str_vt: module.0 + 0x120,
        str_buf: 0x08,
        str_len: 0x10,
        tbl_vt: module.0 + 0x340,
        profile: windows_x64(),
        so_tbl: 0x30,
    }
}

#[test]
fn a_learned_layout_comes_back_on_the_same_module() {
    let module = (0x7ff6_0000_0000, 0x7ff6_0200_0000);
    let layout = a_layout(module);
    let mut binary = Binary::default();
    assert!(!binary.proven());
    binary.learn(&layout);
    assert!(binary.proven());
    let back = binary.layout(module).unwrap();
    assert_eq!(back.str_vt, layout.str_vt);
    assert_eq!(back.tbl_vt, layout.tbl_vt);
    assert_eq!(back.module, module);
    // Another process: the same binary, elsewhere.
    let moved = binary.layout((0x1000_0000, 0x1200_0000)).unwrap();
    assert_eq!(moved.str_vt, 0x1000_0000 + 0x120);
}

#[test]
fn an_unknown_binary_starts_from_the_measured_seed() {
    let binary = Binary::default();
    let seed = binary.layout((0x1_0000_0000, 0x1_0200_0000)).unwrap();
    assert_eq!(seed.str_vt, 0x1_0000_0000 + measured().str_vt);
    assert_eq!(seed.str_len, 0x30);
    assert_eq!(seed.so_tbl, 0x30);
}

#[test]
fn a_binary_that_is_not_the_measured_build_is_not_recognised() {
    let mut binary = Binary::default();
    let memory = Heap::default().with_range(0x1000_0000, vec![0x4d, 0x5a, 0, 0]);
    assert!(!binary.recognize(&memory, (0x1000_0000, 0x1200_0000)));
    assert!(!binary.proven());
}

#[test]
fn both_table_geometries_are_tried_windows_first() {
    let [first, second] = profiles();
    assert_eq!((first.keys, first.stride, first.value), (0x58, 24, -0x10));
    assert_eq!((second.keys, second.stride, second.value), (0x20, 16, -0x08));
    assert_eq!(first.name, windows_x64().name);
    assert_eq!(second.name, linux_x64().name);
}

#[test]
fn the_map_is_refreshed_at_most_a_tenth_of_the_time() {
    let mut map = FreshMap::default();
    assert!(map.due(0));
    map.refreshed(Some(vec![(1, 2)]), 1_000, 3_000);
    // Two milliseconds spent: the period of one tenth of a second wins.
    assert!(!map.due(102_999));
    assert!(map.due(103_000));
    assert_eq!(map.ranges(), Some(&vec![(1, 2)]));
    // 194 ms spent: the next refresh waits ten times as long.
    map.refreshed(None, 0, 194_000);
    assert!(!map.due(194_000 + 1_939_999));
    assert!(map.due(194_000 + 1_940_000));
    assert_eq!(map.ranges(), None);
}

#[test]
fn a_scan_trace_counts_what_it_is_told() {
    let mut trace = ScanTrace::new(100);
    trace.read(4096, true);
    trace.read(4096, false);
    trace.paused();
    let report = trace.stage("manager", 8192, 2, 150);
    assert_eq!(report.name, "ranges");
    assert_eq!(report.elapsed_us, 50);
    trace.outcome("game_via_manager");
    let summary = trace.finish(8192, 2, 400);
    assert_eq!(summary.outcome, "game_via_manager");
    assert_eq!(summary.elapsed_us, 300);
    assert_eq!((summary.read, summary.failures, summary.yields), (4096, 1, 1));
    trace.restart(500);
    assert_eq!((trace.bytes, trace.failures, trace.yields), (0, 0, 0));
}

fn at(level: i64, chrono_ms: i64, frame_timer: i64) -> State {
    State {
        level,
        previous: level - 1,
        chrono_ms,
        frame_timer,
        dim: 0,
        game_over: false,
        locked: false,
        duration_ms: chrono_ms,
        end_sequence: EndSequence::default(),
    }
}

#[test]
fn a_game_over_resets_a_running_run() {
    let mut policy = Policy::new();
    policy.tick(TimerState::Running, Some(at(3, 10_000, 20_000)));
    let mut over = at(3, 11_000, 21_000);
    over.game_over = true;
    let actions = policy.tick(TimerState::Running, Some(over));
    assert!(actions.reset && actions.drop_resolution && !actions.split);
}

#[test]
fn a_level_read_twice_then_a_higher_one_read_twice_splits() {
    let mut policy = Policy::new();
    let run = TimerState::Running;
    policy.tick(run, Some(at(3, 10_000, 20_000)));
    policy.tick(run, Some(at(3, 10_100, 20_100)));
    assert!(!policy.tick(run, Some(at(5, 10_200, 20_200))).split);
    let actions: Actions = policy.tick(run, Some(at(5, 10_300, 20_300)));
    assert!(actions.split);
    assert_eq!(actions.skips, 1);
}

#[test]
fn a_game_that_appears_starts_the_run_at_its_unlock() {
    let mut policy = Policy::new();
    let idle = TimerState::NotRunning;
    assert!(!policy.tick(idle, None).start);
    let mut now = at(0, 1_500, 40_000);
    now.duration_ms = 1_500;
    let actions = policy.tick(idle, Some(now));
    assert!(actions.start && !actions.split && !actions.reset);
    assert_eq!(actions.real_time_ms, Some(1_500));
}

#[test]
fn the_elevator_splits_once_more() {
    let mut policy = Policy::new();
    let run = TimerState::Running;
    policy.tick(run, Some(at(12, 60_000, 70_000)));
    let mut elevator = at(12, 60_100, 70_100);
    elevator.end_sequence = EndSequence::from_remaining_ms(13_900);
    let actions = policy.tick(run, Some(elevator));
    assert!(actions.split);
    assert_eq!(actions.skips, 0);
}

// -- the sweep ---------------------------------------------------------------------

use hammerfest_autosplitter::scan::{scan_bytes, Scan, Silent, Sweep, CHUNK, OVERLAP};

fn blocks_of(ranges: &[(u64, u64)]) -> Vec<(u64, u64)> {
    let mut sweep = Sweep::new();
    let mut out = Vec::new();
    while let Some((base, n, _)) = sweep.next_block(ranges) {
        out.push((base, n));
    }
    out
}

#[test]
fn a_sweep_misses_nothing_across_the_edge_of_a_block() {
    let start = 0x1000_0000;
    let ranges = [(start, start + CHUNK + CHUNK / 2), (start + 4 * CHUNK, start + 4 * CHUNK + 100)];
    let blocks = blocks_of(&ranges);
    assert_eq!(blocks[0], (start, CHUNK));
    assert_eq!(blocks[1], (start + CHUNK - OVERLAP, CHUNK / 2 + OVERLAP));
    // Every window of up to OVERLAP bytes, at every place of the first range
    // around the edge, is whole in a block at the alignment it has.
    for a in (start + CHUNK - 2 * OVERLAP)..(start + CHUNK + OVERLAP) {
        for w in 1..=OVERLAP {
            assert!(
                blocks
                    .iter()
                    .any(|&(b, n)| b <= a && a + w <= b + n && (a - b) % 8 == (a - start) % 8),
                "the window of {w} bytes at {a:#x} is in no block"
            );
        }
    }
}

#[test]
fn a_pattern_in_the_overlap_of_two_blocks_is_found_in_both() {
    let base = 0x2000_0000u64;
    let mut bytes = vec![0u8; (CHUNK + 64) as usize];
    let at = (CHUNK - 16) as usize;
    bytes[at..at + 4].copy_from_slice(&[0xde, 0xad, 0xbe, 0xef]);
    let heap = Heap::default().with_range(base, bytes);
    let ranges = [(base, base + CHUNK + 64)];
    let mut log = Silent;
    let mut cost = Scan::new(&mut log);
    let found = scan_bytes(&heap, &ranges, &[0xde, 0xad, 0xbe, 0xef], 2, 8, &mut cost, &mut log);
    assert_eq!(found, vec![base + at as u64, base + at as u64]);
    let mut cost = Scan::new(&mut log);
    let first = scan_bytes(&heap, &ranges, &[0xde, 0xad, 0xbe, 0xef], 2, 1, &mut cost, &mut log);
    assert_eq!(first, vec![base + at as u64]);
}

#[test]
fn the_keys_of_a_table_follow_one_another() {
    let l = a_layout((0x1000_0000, 0x1200_0000));
    let tbl = 0x2000_0000;
    assert_eq!(l.key_addr(tbl, 0), tbl + 0x58);
    assert_eq!(l.key_addr(tbl, 5), tbl + 0x58 + 5 * 24);
    let linux = Layout { profile: linux_x64(), ..l };
    assert_eq!(linux.key_addr(tbl, 3), tbl + 0x20 + 3 * 16);
}
