use hammerfest_autosplitter::plugin::{
    committed_end, forget_the_gone, heap_ranges, heap_size, linear_memories, ruffle_heap_ranges,
    MappedRange, RangeFlags,
};
use hammerfest_autosplitter::runtime::{heap_size_of, Runtime};
use hammerfest_autosplitter::scan::move_region_first;

const RW: RangeFlags = RangeFlags {
    read: true,
    write: true,
    path: false,
};
const RW_FILE: RangeFlags = RangeFlags {
    read: true,
    write: true,
    path: true,
};
const RO: RangeFlags = RangeFlags {
    read: true,
    write: false,
    path: false,
};
const NONE: RangeFlags = RangeFlags {
    read: false,
    write: false,
    path: false,
};

fn range(start: u64, size: u64, flags: RangeFlags) -> MappedRange {
    MappedRange { start, size, flags }
}

fn a_map() -> Vec<MappedRange> {
    vec![
        range(0x1000, 0x4000, RW),
        range(0x8000, 0x1000, RW_FILE),
        range(0x10000, 0x2000, RO),
        range(0x20000, 0, RW),
        range(0x30000, 0x800, RW),
    ]
}

#[test]
fn the_heap_is_what_can_be_read_and_written_with_no_file_behind() {
    assert_eq!(
        heap_ranges(&a_map(), false),
        [(0x1000, 0x5000), (0x30000, 0x30800)]
    );
    assert_eq!(heap_size(&a_map(), false), 0x4800);
}

#[test]
fn on_macos_the_mapped_ranges_count_and_the_smallest_come_first() {
    assert_eq!(
        heap_ranges(&a_map(), true),
        [(0x30000, 0x30800), (0x8000, 0x9000), (0x1000, 0x5000)]
    );
    assert_eq!(heap_size(&a_map(), true), 0x5800);
}

#[test]
fn ruffle_reads_the_glibc_heap_first() {
    assert_eq!(
        ruffle_heap_ranges(Some((0x50_0000, 0x60_0000)), &a_map()),
        [(0x50_0000, 0x60_0000), (0x1000, 0x5000), (0x30000, 0x30800)]
    );
    assert_eq!(
        ruffle_heap_ranges(None, &a_map()),
        [(0x1000, 0x5000), (0x30000, 0x30800)]
    );
}

#[test]
fn a_linear_memory_is_a_committed_range_and_its_reserve() {
    let map = vec![
        range(0x7000_0000, 0x100_0000, RW),
        range(0x7100_0000, 0xff00_0000, NONE),
        range(0x2_0000_0000, 0x1000, RW),
        range(0x2_0000_1000, 0x1000, NONE),
    ];
    assert_eq!(
        linear_memories(&map),
        [(0x7000_1000, 0x1_0000_0000 - 0x1000)]
    );
    assert_eq!(committed_end(&map, 0x7000_1000), Some(0x7100_0000));
    assert_eq!(committed_end(&map, 0x7000_2000), None);
    assert_eq!(linear_memories(&[]), []);
}

#[test]
fn the_pids_that_are_gone_are_forgotten() {
    let mut rejected = vec![3, 7, 9, 12];
    forget_the_gone(&mut rejected, &[12, 3, 5]);
    assert_eq!(rejected, [3, 12]);
}

#[test]
fn the_region_of_an_address_comes_first() {
    let mut ranges = [(0x1000, 0x2000), (0x5000, 0x6000), (0x9000, 0xa000)];
    move_region_first(&mut ranges, 0x9800);
    assert_eq!(ranges, [(0x9000, 0xa000), (0x5000, 0x6000), (0x1000, 0x2000)]);
    move_region_first(&mut ranges, 0x4000);
    assert_eq!(ranges, [(0x9000, 0xa000), (0x5000, 0x6000), (0x1000, 0x2000)]);
}

#[test]
fn a_player_is_named_for_the_log() {
    assert_eq!(Runtime::PepperFlash.name(), "the Flash plugin of EternalTwin");
    assert_eq!(Runtime::Ruffle.name(), "Ruffle");
    let tab = Runtime::RuffleWeb {
        base: 0x1000,
        span: 0x10,
    };
    assert_eq!(tab.name(), "Ruffle in Firefox");
    assert!(tab.is_one_of_several());
    assert!(!Runtime::Ruffle.is_one_of_several());
}

#[test]
fn the_size_of_a_heap_is_the_sum_of_its_ranges() {
    assert_eq!(heap_size_of(&[(0x1000, 0x3000), (0x8000, 0x8800)]), 0x2800);
    assert_eq!(heap_size_of(&[(0, u64::MAX), (0, 10)]), u64::MAX);
    assert_eq!(heap_size_of(&[]), 0);
}
