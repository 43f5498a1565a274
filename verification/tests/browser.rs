use hammerfest_autosplitter::linear_memory::{blocks, LinearMemory};
use hammerfest_autosplitter::memory::{Heap, Memory};

/// Where the range under test starts, as an offset in the linear memory.
const BASE: u64 = 0x1000;
/// How long it is.
const LEN: usize = 16;

/// Where the linear memory sits in the process: anywhere, as long as every
/// test reads through the offsets.
const LINEAR_BASE: u64 = 0x7f00_0000_0000;

fn contents() -> Vec<u8> {
    (0..LEN as u8).map(|i| 0xB0 | i).collect()
}

/// A linear memory whose bytes, at the offsets the contract asks about, are
/// the ones of the contract.
fn a_linear_memory_over(process: &Heap) -> LinearMemory<'_, Heap> {
    LinearMemory::new(process, LINEAR_BASE, BASE + LEN as u64)
}

fn a_process() -> Heap {
    Heap::default().with_range(LINEAR_BASE + BASE, contents())
}

#[test]
fn reads_the_bytes_at_an_offset() {
    let process = a_process();
    let mut buf = [0u8; 4];
    assert_eq!(a_linear_memory_over(&process).read_into(BASE + 2, &mut buf), Some(()));
    assert_eq!(buf, [0xB2, 0xB3, 0xB4, 0xB5]);
}

#[test]
fn browser_reads_up_to_the_last_byte_of_a_range() {
    let process = a_process();
    let mut buf = [0u8; 4];
    assert_eq!(a_linear_memory_over(&process).read_into(BASE + 12, &mut buf), Some(()));
    assert_eq!(buf, [0xBC, 0xBD, 0xBE, 0xBF]);
}

#[test]
fn browser_refuses_a_read_that_runs_past_the_end_of_a_range() {
    let process = a_process();
    let mut buf = [0u8; 4];
    assert_eq!(a_linear_memory_over(&process).read_into(BASE + 13, &mut buf), None);
}

#[test]
fn refuses_an_offset_that_is_in_no_range() {
    let process = a_process();
    let linear = a_linear_memory_over(&process);
    let mut buf = [0u8; 1];
    assert_eq!(linear.read_into(BASE - 1, &mut buf), None);
    assert_eq!(linear.read_into(BASE + LEN as u64, &mut buf), None);
    assert_eq!(linear.read_into(0, &mut buf), None);
}

/// The process has bytes after the end of the linear memory: they belong to
/// something else, and are not read.
#[test]
fn refuses_a_read_past_the_end_of_the_linear_memory() {
    let process = Heap::default().with_range(LINEAR_BASE, vec![0xAA; 0x100]);
    let linear = LinearMemory::new(&process, LINEAR_BASE, 0x80);
    let mut buf = [0u8; 4];

    assert_eq!(linear.read_into(0x7E, &mut buf), None);
    assert_eq!(linear.read_into(0x7C, &mut buf), Some(()));
}

const MIB: u64 = 1 << 20;

#[test]
fn cuts_a_linear_memory_into_blocks_of_one_mib() {
    assert_eq!(
        blocks(2 * MIB + MIB / 2),
        [(0, MIB), (MIB, 2 * MIB), (2 * MIB, 2 * MIB + MIB / 2)]
    );
}

#[test]
fn keeps_the_blocks_it_had_when_the_memory_grows() {
    let before = blocks(2 * MIB);
    let after = blocks(3 * MIB);

    assert!(before.iter().all(|block| after.contains(block)));
}

#[test]
fn cuts_nothing_out_of_nothing() {
    assert_eq!(blocks(0), []);
}
