use flate2::write::GzEncoder;
use flate2::Compression;
use hammerfest_autosplitter::memory::Memory;
use hammerfest_autosplitter::replay::Capture;
use std::io::Write;

fn gz(bytes: &[u8]) -> Vec<u8> {
    let mut e = GzEncoder::new(Vec::new(), Compression::default());
    e.write_all(bytes).unwrap();
    e.finish().unwrap()
}

fn parsed(index: &str) -> Option<Capture> {
    Capture::parse(index, (0u8..32).collect())
}

fn regions(c: &Capture) -> Vec<(u64, u64, Option<usize>)> {
    c.regions().iter().map(|r| (r.base, r.size, r.offset)).collect()
}

fn read(c: &Capture, address: u64, len: usize) -> Option<Vec<u8>> {
    let mut buf = vec![0xaa; len];
    c.read_into(address, &mut buf).map(|_| buf)
}

#[test]
fn reads_every_statement_of_an_index() {
    let c = parsed(
        "plugin 0x40000000 0x40100000\n\
         state level=12 set=xml_deepnight dim=3\n\
         region 0x1000 16 0\n\
         region 0x2000 8 -\n\
         region 0x3000 8 16\n",
    )
    .unwrap();
    assert_eq!(c.module(), (0x4000_0000, 0x4010_0000));
    assert_eq!(c.level(), 12);
    assert_eq!(c.set(), b"xml_deepnight");
    assert_eq!(c.dim(), 3);
    assert_eq!(
        regions(&c),
        vec![(0x1000, 16, Some(0)), (0x2000, 8, None), (0x3000, 8, Some(16))]
    );
    assert_eq!(c.ranges(), vec![(0x1000, 0x1010), (0x2000, 0x2008), (0x3000, 0x3008)]);
}

#[test]
fn an_empty_index_says_nothing() {
    let c = parsed("").unwrap();
    assert_eq!(c.module(), (0, 0));
    assert_eq!(c.level(), -1);
    assert_eq!(c.set(), b"");
    assert_eq!(c.dim(), -1);
    assert!(c.regions().is_empty());
}

#[test]
fn ignores_the_lines_it_does_not_know() {
    let c = parsed("# a comment\n\n   \nnote the clocks are not exact\nregion 0x10 4 0 and more words\n").unwrap();
    assert_eq!(regions(&c), vec![(0x10, 4, Some(0))]);
}

#[test]
fn reads_lines_ended_by_crlf_and_words_split_by_any_white_space() {
    let c = parsed("plugin\t0x10   0x20\r\nregion 0x30\u{a0}4\u{2003}8\r\n").unwrap();
    assert_eq!(c.module(), (0x10, 0x20));
    assert_eq!(regions(&c), vec![(0x30, 4, Some(8))]);
}

#[test]
fn refuses_a_state_field_without_an_equals_sign() {
    assert!(parsed("state level=1 oops").is_none());
}

#[test]
fn refuses_a_level_or_a_dimension_that_is_no_number() {
    assert!(parsed("state level=one").is_none());
    assert!(parsed("state dim=").is_none());
    assert!(parsed("state level=9223372036854775808").is_none());
}

#[test]
fn reads_signed_values_and_keeps_the_last_of_a_key() {
    let c = parsed("state level=-5 dim=+3 level=-9223372036854775808 other=x=y").unwrap();
    assert_eq!(c.level(), i64::MIN);
    assert_eq!(c.dim(), 3);
    let c = parsed("state set=a set=b=c").unwrap();
    assert_eq!(c.set(), b"b=c");
}

#[test]
fn refuses_a_plugin_line_without_two_addresses() {
    assert!(parsed("plugin 0x1").is_none());
    assert!(parsed("plugin 0x1 0X2").is_none());
    assert!(parsed("plugin 0x1 +2").is_some());
    assert!(parsed("plugin 0x 0x2").is_none());
}

#[test]
fn reads_an_address_with_any_number_of_prefixes_or_none() {
    let c = parsed("plugin 0x0x10 10").unwrap();
    assert_eq!(c.module(), (0x10, 0x10));
    assert!(parsed("plugin 0x10000000000000000 0x1").is_none());
}

#[test]
fn refuses_a_region_line_that_is_cut_short() {
    assert!(parsed("region 0x10 4").is_none());
    assert!(parsed("region 0x10 four 0").is_none());
    assert!(parsed("region 0xg 4 0").is_none());
}

#[test]
fn an_offset_that_is_no_number_empties_the_region() {
    let c = parsed("region 0x10 4 here").unwrap();
    assert_eq!(regions(&c), vec![(0x10, 4, None)]);
}

#[test]
fn refuses_a_region_that_runs_past_the_end_of_memory() {
    assert!(parsed("region 0xffffffffffffff00 512 0").is_none());
    assert!(parsed("region 0xffffffffffffff00 256 0").is_none());
    assert!(parsed("region 0xffffffffffffff00 255 0").is_some());
}

#[test]
fn serves_the_bytes_of_the_first_region_that_holds_a_read() {
    let c = parsed("region 0x1000 16 0\nregion 0x1000 32 4\nregion 0x2000 8 -\nregion 0x3000 8 30\n").unwrap();
    assert_eq!(read(&c, 0x1004, 4), Some(vec![4, 5, 6, 7]));
    // Past the end of the first region, the second one holds the read.
    assert_eq!(read(&c, 0x100e, 4), Some(vec![18, 19, 20, 21]));
    // An emptied region reads as zeros.
    assert_eq!(read(&c, 0x2002, 3), Some(vec![0, 0, 0]));
    // A read no region holds whole.
    assert_eq!(read(&c, 0x2006, 4), None);
    assert_eq!(read(&c, 0x5000, 1), None);
    // A region whose bytes the file does not hold.
    assert_eq!(read(&c, 0x3000, 4), None);
    // A read past the end of the address space.
    assert_eq!(read(&c, u64::MAX, 2), None);
    // An empty read inside a region.
    assert_eq!(read(&c, 0x1000, 0), Some(vec![]));
}

#[test]
fn a_masked_region_reads_as_zeros() {
    let mut c = parsed("region 0x1000 16 0\n").unwrap();
    c.mask(vec![0x1000]);
    assert_eq!(read(&c, 0x1004, 2), Some(vec![0, 0]));
    c.mask(vec![]);
    assert_eq!(read(&c, 0x1004, 2), Some(vec![4, 5]));
}

#[test]
fn unpacks_the_heap_it_is_given() {
    let heap: Vec<u8> = (0..200u32).map(|i| (i * 7 % 251) as u8).collect();
    let c = Capture::unpack("region 0x1000 200 0\n", &gz(&heap)).unwrap();
    assert_eq!(read(&c, 0x1000, 200), Some(heap.clone()));
    assert_eq!(read(&c, 0x1010, 3), Some(heap[16..19].to_vec()));
}

#[test]
fn refuses_a_heap_that_is_not_gzip() {
    assert!(Capture::unpack("region 0x1000 4 0\n", &[1, 2, 3, 4]).is_none());
}

#[test]
fn refuses_a_malformed_index_even_with_a_good_heap() {
    assert!(Capture::unpack("state level", &gz(&[1, 2, 3])).is_none());
}
