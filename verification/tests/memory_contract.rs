use hammerfest_autosplitter::memory::{Heap, Memory};

/// Where the range under test starts.
const BASE: u64 = 0x1000;
/// How long it is.
const LEN: usize = 16;

/// Sixteen bytes, each one different, so that a test can see an address off by
/// one and a buffer filled backwards.
fn contents() -> Vec<u8> {
    (0..LEN as u8).map(|i| 0xB0 | i).collect()
}

fn a_heap() -> Heap {
    Heap::default().with_range(BASE, contents())
}

/// Simple, and one: the bytes asked for, in the order they lie in memory.
fn case_reads_the_bytes_at_an_address<M: Memory>(mem: &M) {
    let mut buf = [0u8; 4];

    assert_eq!(mem.read_into(BASE + 2, &mut buf), Some(()));

    assert_eq!(buf, [0xB2, 0xB3, 0xB4, 0xB5]);
}

/// Boundary: a read that ends on the last byte of the range is inside it.
fn case_reads_up_to_the_last_byte_of_a_range<M: Memory>(mem: &M) {
    let mut buf = [0u8; 4];

    assert_eq!(mem.read_into(BASE + 12, &mut buf), Some(()));

    assert_eq!(buf, [0xBC, 0xBD, 0xBE, 0xBF]);
}

/// Boundary: one byte further is outside it, and the whole read fails.
fn case_refuses_a_read_that_runs_past_the_end_of_a_range<M: Memory>(mem: &M) {
    let mut buf = [0u8; 4];

    assert_eq!(mem.read_into(BASE + 13, &mut buf), None);
}

/// Zero, from the other side: an address that no range holds.
fn case_refuses_an_address_that_is_in_no_range<M: Memory>(mem: &M) {
    let mut buf = [0u8; 1];

    assert_eq!(mem.read_into(BASE - 1, &mut buf), None);
    assert_eq!(mem.read_into(BASE + LEN as u64, &mut buf), None);
    assert_eq!(mem.read_into(0, &mut buf), None);
}

#[test]
fn memory_contract_reads_the_bytes_at_an_address() {
    case_reads_the_bytes_at_an_address(&a_heap());
}

#[test]
fn memory_contract_reads_up_to_the_last_byte_of_a_range() {
    case_reads_up_to_the_last_byte_of_a_range(&a_heap());
}

#[test]
fn memory_contract_refuses_a_read_that_runs_past_the_end_of_a_range() {
    case_refuses_a_read_that_runs_past_the_end_of_a_range(&a_heap());
}

#[test]
fn memory_contract_refuses_an_address_that_is_in_no_range() {
    case_refuses_an_address_that_is_in_no_range(&a_heap());
}

/// The heap refuses a read that crosses out of one range and into the next.
#[test]
fn refuses_a_read_that_crosses_from_one_range_into_the_next() {
    let heap = a_heap().with_range(BASE + LEN as u64, contents());
    let mut buf = [0u8; 4];

    assert_eq!(heap.read_into(BASE + 14, &mut buf), None);
}
