//! Replaying a capture of a real game.
//!
//! A capture is two files: `heap.bin.gz`, the bytes of the regions that were
//! kept, and `index.txt`, which says where each region sits, where the plugin
//! was loaded and what the game showed when the bytes were read. The reader
//! is then served those bytes as if they were the running process.
//!
//! `index.txt` holds one statement per line:
//!
//! ```text
//!    plugin 0x<base> 0x<end>
//!    state level=<n> set=<name> dim=<n>
//!    region 0x<base> <size> <offset in heap.bin, or ->
//! ```
//!
//! Any other line is ignored. A line whose statement is malformed makes the
//! whole index unreadable.
use std::io::Read;
use vstd::prelude::*;
use vstd::string::StringSliceAdditionalSpecFns;

use crate::memory::Memory;

verus! {

// -- the words of a line ---------------------------------------------------------

/// The byte at `i`, or -1 past either end.
pub open spec fn byte_or_none(s: Seq<u8>, i: int) -> int {
    if 0 <= i < s.len() {
        s[i] as int
    } else {
        -1
    }
}

/// The width in bytes of the white space that starts at `i`, as
/// `char::is_whitespace` counts white space, in UTF-8; zero where none starts.
pub open spec fn space_width(s: Seq<u8>, i: int) -> int {
    let b0 = byte_or_none(s, i);
    let b1 = byte_or_none(s, i + 1);
    let b2 = byte_or_none(s, i + 2);
    if (9 <= b0 <= 13) || b0 == 32 {
        1
    } else if b0 == 0xc2 && (b1 == 0x85 || b1 == 0xa0) {
        2
    } else if b0 == 0xe1 && b1 == 0x9a && b2 == 0x80 {
        3
    } else if b0 == 0xe2 && b1 == 0x80 && ((0x80 <= b2 <= 0x8a) || b2 == 0xa8 || b2 == 0xa9 || b2
        == 0xaf) {
        3
    } else if b0 == 0xe2 && b1 == 0x81 && b2 == 0x9f {
        3
    } else if b0 == 0xe3 && b1 == 0x80 && b2 == 0x80 {
        3
    } else {
        0
    }
}

/// The words of `s` between `i` and `end`, as the start and the end of each:
/// the maximal runs without white space. `start` is where the word under way
/// began, if one is.
pub open spec fn spans_from(s: Seq<u8>, i: int, end: int, start: Option<int>) -> Seq<(int, int)>
    decreases end - i,
{
    if i >= end {
        match start {
            Some(b) => seq![(b, end)],
            None => Seq::empty(),
        }
    } else if space_width(s, i) > 0 {
        let next = if i + space_width(s, i) < end {
            i + space_width(s, i)
        } else {
            end
        };
        let rest = spans_from(s, next, end, None);
        match start {
            Some(b) => seq![(b, i)] + rest,
            None => rest,
        }
    } else {
        spans_from(s, i + 1, end, if start is None { Some(i) } else { start })
    }
}

/// The words of the line between `begin` and `end`.
pub open spec fn words_of(s: Seq<u8>, begin: int, end: int) -> Seq<(int, int)> {
    spans_from(s, begin, end, None)
}

/// The width of the white space at `i`.
fn space_at(s: &[u8], i: usize) -> (w: usize)
    requires
        i < s@.len(),
    ensures
        w == space_width(s@, i as int),
{
    let n = s.len();
    let b0 = s[i];
    let b1: i32 = if n - i > 1 { s[i + 1] as i32 } else { -1 };
    let b2: i32 = if n - i > 2 { s[i + 2] as i32 } else { -1 };
    if (9 <= b0 && b0 <= 13) || b0 == 32 {
        1
    } else if b0 == 0xc2 && (b1 == 0x85 || b1 == 0xa0) {
        2
    } else if b0 == 0xe1 && b1 == 0x9a && b2 == 0x80 {
        3
    } else if b0 == 0xe2 && b1 == 0x80 && ((0x80 <= b2 && b2 <= 0x8a) || b2 == 0xa8 || b2 == 0xa9
        || b2 == 0xaf) {
        3
    } else if b0 == 0xe2 && b1 == 0x81 && b2 == 0x9f {
        3
    } else if b0 == 0xe3 && b1 == 0x80 && b2 == 0x80 {
        3
    } else {
        0
    }
}

/// The spans of `s` as integers.
pub open spec fn spans_view(v: Seq<(usize, usize)>) -> Seq<(int, int)> {
    v.map_values(|p: (usize, usize)| (p.0 as int, p.1 as int))
}

/// The words of the line between `begin` and `end`.
fn words(s: &[u8], begin: usize, end: usize) -> (r: Vec<(usize, usize)>)
    requires
        begin <= end <= s@.len(),
    ensures
        spans_view(r@) == words_of(s@, begin as int, end as int),
        forall|k: int|
            0 <= k < r@.len() ==> begin <= #[trigger] r@[k].0 <= r@[k].1 <= end,
{
    let mut found: Vec<(usize, usize)> = Vec::new();
    let mut start: Option<usize> = None;
    let mut i = begin;
    while i < end
        invariant
            begin <= i <= end <= s@.len(),
            start matches Some(b) ==> begin <= b <= i,
            words_of(s@, begin as int, end as int) == spans_view(found@) + spans_from(
                s@,
                i as int,
                end as int,
                match start {
                    Some(b) => Some(b as int),
                    None => None,
                },
            ),
            forall|k: int| 0 <= k < found@.len() ==> begin <= #[trigger] found@[k].0 <= found@[k].1 <= i,
        decreases end - i,
    {
        let w = space_at(s, i);
        if w > 0 {
            let ghost before = found@;
            if let Some(b) = start {
                found.push((b, i));
                assert forall|k: int| 0 <= k < found@.len() implies begin <= #[trigger] found@[k].0
                    <= found@[k].1 <= i by {
                    if k < before.len() {
                        assert(found@[k] == before[k]);
                    }
                }
            }
            assert(spans_view(found@) =~= match start {
                Some(b) => spans_view(before) + seq![(b as int, i as int)],
                None => spans_view(before),
            });
            start = None;
            if w >= end - i {
                assert(spans_view(found@) + Seq::<(int, int)>::empty() =~= spans_view(found@));
                i = end;
            } else {
                i = i + w;
            }
            assert(words_of(s@, begin as int, end as int) =~= spans_view(found@) + spans_from(
                s@,
                i as int,
                end as int,
                None,
            ));
        } else {
            if start.is_none() {
                start = Some(i);
            }
            i = i + 1;
        }
    }
    if let Some(b) = start {
        let ghost before = found@;
        found.push((b, end));
        assert(spans_view(found@) =~= spans_view(before) + seq![(b as int, end as int)]);
        assert forall|k: int| 0 <= k < found@.len() implies begin <= #[trigger] found@[k].0
            <= found@[k].1 <= end by {
            if k < before.len() {
                assert(found@[k] == before[k]);
            }
        }
    } else {
        assert(spans_view(found@) + Seq::<(int, int)>::empty() =~= spans_view(found@));
    }
    found
}

// -- numbers ---------------------------------------------------------------------

/// The value of an ASCII digit of base sixteen or below; sixteen for any
/// other byte.
pub open spec fn digit_value(b: u8) -> int {
    if 0x30 <= b <= 0x39 {
        b - 0x30
    } else if 0x61 <= b <= 0x66 {
        b - 0x61 + 10
    } else if 0x41 <= b <= 0x46 {
        b - 0x41 + 10
    } else {
        16
    }
}

/// The value of the digits `s` in base `radix`, or nothing when a byte of
/// it is no such digit. No digit at all is zero.
pub open spec fn digits_value(s: Seq<u8>, radix: int) -> Option<int>
    decreases s.len(),
{
    if s.len() == 0 {
        Some(0)
    } else {
        match digits_value(s.drop_last(), radix) {
            Some(v) => if digit_value(s.last()) < radix {
                Some(v * radix + digit_value(s.last()))
            } else {
                None
            },
            None => None,
        }
    }
}

/// What `from_str_radix` answers for an unsigned type whose largest value is
/// `max`: an optional `+`, then at least one digit, and no more than `max`.
pub open spec fn unsigned_value(s: Seq<u8>, radix: int, max: int) -> Option<int> {
    let digits = if s.len() > 0 && s[0] == 0x2b {
        s.drop_first()
    } else {
        s
    };
    if digits.len() == 0 {
        None
    } else {
        match digits_value(digits, radix) {
            Some(v) => if v <= max {
                Some(v)
            } else {
                None
            },
            None => None,
        }
    }
}

/// What `str::parse::<i64>` answers: an optional sign, then at least one
/// decimal digit, and a value that fits.
pub open spec fn signed_value(s: Seq<u8>) -> Option<int> {
    if s.len() > 0 && s[0] == 0x2d {
        let digits = s.drop_first();
        if digits.len() == 0 {
            None
        } else {
            match digits_value(digits, 10) {
                Some(v) => if v <= 0x8000_0000_0000_0000 {
                    Some(-v)
                } else {
                    None
                },
                None => None,
            }
        }
    } else {
        unsigned_value(s, 10, i64::MAX as int)
    }
}

/// `s` without the `0x` prefixes in front of it, as `trim_start_matches`
/// removes them: every one of them.
pub open spec fn without_0x(s: Seq<u8>) -> Seq<u8>
    decreases s.len(),
{
    if s.len() >= 2 && s[0] == 0x30 && s[1] == 0x78 {
        without_0x(s.skip(2))
    } else {
        s
    }
}

/// A `0x...` address, as `index.txt` writes it.
pub open spec fn hex_value(s: Seq<u8>) -> Option<int> {
    unsigned_value(without_0x(s), 16, u64::MAX as int)
}

proof fn lemma_digits_prefix(t: Seq<u8>, k: int, radix: int)
    requires
        0 <= k <= t.len(),
        radix >= 1,
    ensures
        digits_value(t, radix) matches Some(v) ==> v >= 0,
        digits_value(t.take(k), radix) is None ==> digits_value(t, radix) is None,
        digits_value(t.take(k), radix) matches Some(u) ==> (digits_value(t, radix) matches Some(v)
            ==> u <= v),
    decreases t.len(),
{
    if t.len() == 0 {
        assert(t.take(k) =~= t);
    } else {
        let shorter = t.drop_last();
        if k == t.len() {
            assert(t.take(k) =~= t);
            lemma_digits_prefix(shorter, 0, radix);
        } else {
            assert(shorter.take(k) =~= t.take(k));
            lemma_digits_prefix(shorter, k, radix);
        }
        if let Some(v) = digits_value(shorter, radix) {
            if digit_value(t.last()) < radix {
                assert(v * radix >= v) by (nonlinear_arith)
                    requires
                        v >= 0,
                        radix >= 1,
                ;
            }
        }
    }
}

/// The value of the digit `c`.
fn digit_of(c: u8) -> (d: u64)
    ensures
        d == digit_value(c),
{
    if 0x30 <= c && c <= 0x39 {
        (c - 0x30) as u64
    } else if 0x61 <= c && c <= 0x66 {
        (c - 0x61 + 10) as u64
    } else if 0x41 <= c && c <= 0x46 {
        (c - 0x41 + 10) as u64
    } else {
        16
    }
}

/// The value of the digits between `b` and `e`, when they are all digits
/// of base `radix` and it is no more than `max`.
fn digits_in(s: &[u8], b: usize, e: usize, radix: u64, max: u64) -> (r: Option<u64>)
    requires
        b <= e <= s@.len(),
        2 <= radix <= 16,
    ensures
        r == (match digits_value(s@.subrange(b as int, e as int), radix as int) {
            Some(v) => if v <= max {
                Some(v as u64)
            } else {
                None
            },
            None => None,
        }),
        r matches Some(v) ==> v <= max && digits_value(s@.subrange(b as int, e as int), radix as int)
            == Some(v as int),
{
    let ghost whole = s@.subrange(b as int, e as int);
    let mut acc: u64 = 0;
    let mut i = b;
    assert(s@.subrange(b as int, b as int) =~= Seq::<u8>::empty());
    while i < e
        invariant
            b <= i <= e <= s@.len(),
            2 <= radix <= 16,
            acc <= max,
            whole == s@.subrange(b as int, e as int),
            digits_value(s@.subrange(b as int, i as int), radix as int) == Some(acc as int),
        decreases e - i,
    {
        let ghost before = s@.subrange(b as int, i as int);
        let ghost after = s@.subrange(b as int, i + 1);
        assert(after.drop_last() =~= before);
        assert(after.last() == s@[i as int]);
        assert(whole.take(i + 1 - b) =~= after);
        proof {
            lemma_digits_prefix(whole, i + 1 - b, radix as int);
        }
        let d = digit_of(s[i]);
        if d >= radix {
            return None;
        }
        assert(acc as int * radix as int <= 0xffff_ffff_ffff_ffff * 16) by (nonlinear_arith)
            requires
                acc <= 0xffff_ffff_ffff_ffff,
                radix <= 16,
        ;
        let next: u128 = (acc as u128) * (radix as u128) + (d as u128);
        if next > max as u128 {
            return None;
        }
        acc = next as u64;
        i = i + 1;
    }
    assert(whole =~= s@.subrange(b as int, i as int));
    Some(acc)
}

/// What `from_str_radix` answers for the text between `b` and `e`, for an
/// unsigned type whose largest value is `max`.
fn unsigned_in(s: &[u8], b: usize, e: usize, radix: u64, max: u64) -> (r: Option<u64>)
    requires
        b <= e <= s@.len(),
        2 <= radix <= 16,
    ensures
        r == (match unsigned_value(s@.subrange(b as int, e as int), radix as int, max as int) {
            Some(v) => Some(v as u64),
            None => None,
        }),
        r matches Some(v) ==> unsigned_value(s@.subrange(b as int, e as int), radix as int, max as int)
            == Some(v as int),
{
    let ghost text = s@.subrange(b as int, e as int);
    let mut from = b;
    if b < e && s[b] == 0x2b {
        from = b + 1;
        assert(text.drop_first() =~= s@.subrange(from as int, e as int));
    }
    if from == e {
        return None;
    }
    digits_in(s, from, e, radix, max)
}

/// What `str::parse::<i64>` answers for the text between `b` and `e`.
fn signed_in(s: &[u8], b: usize, e: usize) -> (r: Option<i64>)
    requires
        b <= e <= s@.len(),
    ensures
        r == (match signed_value(s@.subrange(b as int, e as int)) {
            Some(v) => Some(v as i64),
            None => None,
        }),
{
    let ghost text = s@.subrange(b as int, e as int);
    if b < e && s[b] == 0x2d {
        assert(text.drop_first() =~= s@.subrange(b + 1, e as int));
        if b + 1 == e {
            return None;
        }
        match digits_in(s, b + 1, e, 10, 0x8000_0000_0000_0000) {
            Some(v) => {
                if v == 0x8000_0000_0000_0000 {
                    Some(i64::MIN)
                } else {
                    Some(-(v as i64))
                }
            },
            None => None,
        }
    } else {
        match unsigned_in(s, b, e, 10, i64::MAX as u64) {
            Some(v) => Some(v as i64),
            None => None,
        }
    }
}

/// The address written between `b` and `e`.
fn hex(s: &[u8], b: usize, e: usize) -> (r: Option<u64>)
    requires
        b <= e <= s@.len(),
    ensures
        r == (match hex_value(s@.subrange(b as int, e as int)) {
            Some(v) => Some(v as u64),
            None => None,
        }),
        r matches Some(v) ==> hex_value(s@.subrange(b as int, e as int)) == Some(v as int),
{
    let mut from = b;
    while e - from >= 2 && s[from] == 0x30 && s[from + 1] == 0x78
        invariant
            b <= from <= e <= s@.len(),
            without_0x(s@.subrange(b as int, e as int)) == without_0x(
                s@.subrange(from as int, e as int),
            ),
        decreases e - from,
    {
        assert(s@.subrange(from as int, e as int).skip(2) =~= s@.subrange(from + 2, e as int));
        from = from + 2;
    }
    unsigned_in(s, from, e, 16, u64::MAX)
}

// -- the statements of the index -------------------------------------------------

/// One region of the captured heap: where it sits, how many bytes it spans,
/// and where its bytes are in the unpacked file, or `None` when the region
/// was emptied. An emptied region is still part of the map, at its address
/// and its size, and it reads as zeros.
#[derive(Clone, Copy, Debug)]
pub struct Region {
    pub base: u64,
    pub size: u64,
    pub offset: Option<usize>,
}

/// What `index.txt` says: where the plugin was loaded, what the game showed
/// (its level, the name of its world set and its dimension), and the
/// regions of the heap.
pub struct Index {
    pub module: (u64, u64),
    pub level: i64,
    pub set: Seq<u8>,
    pub dim: i64,
    pub regions: Seq<Region>,
}

/// What an index says before its first line: no plugin, no state, no region.
pub open spec fn empty_index() -> Index {
    Index { module: (0u64, 0u64), level: -1i64, set: Seq::empty(), dim: -1i64, regions: Seq::empty() }
}

/// The text of a span.
pub open spec fn text_of(s: Seq<u8>, span: (int, int)) -> Seq<u8> {
    s.subrange(span.0, span.1)
}

/// The word `plugin`, in ASCII.
pub open spec fn plugin_word() -> Seq<u8> {
    seq![0x70u8, 0x6c, 0x75, 0x67, 0x69, 0x6e]
}

/// The word `state`, in ASCII.
pub open spec fn state_word() -> Seq<u8> {
    seq![0x73u8, 0x74, 0x61, 0x74, 0x65]
}

/// The word `region`, in ASCII.
pub open spec fn region_word() -> Seq<u8> {
    seq![0x72u8, 0x65, 0x67, 0x69, 0x6f, 0x6e]
}

/// The word `level`, in ASCII.
pub open spec fn level_word() -> Seq<u8> {
    seq![0x6cu8, 0x65, 0x76, 0x65, 0x6c]
}

/// The word `set`, in ASCII.
pub open spec fn set_word() -> Seq<u8> {
    seq![0x73u8, 0x65, 0x74]
}

/// The word `dim`, in ASCII.
pub open spec fn dim_word() -> Seq<u8> {
    seq![0x64u8, 0x69, 0x6d]
}

/// The word that stands for an emptied region.
pub open spec fn emptied_word() -> Seq<u8> {
    seq![0x2du8]
}

/// The first `=` between `i` and `e`.
pub open spec fn equals_sign(s: Seq<u8>, i: int, e: int) -> Option<int>
    decreases e - i,
{
    if i >= e {
        None
    } else if s[i] == 0x3d {
        Some(i)
    } else {
        equals_sign(s, i + 1, e)
    }
}

/// The fields of a `state` line from the `k`-th word on, each a key, `=`
/// and a value, read into `acc`. A word without `=` spoils the line.
pub open spec fn read_fields(s: Seq<u8>, w: Seq<(int, int)>, k: int, acc: Index) -> Option<Index>
    decreases w.len() - k,
{
    if k >= w.len() || k < 0 {
        Some(acc)
    } else {
        match equals_sign(s, w[k].0, w[k].1) {
            None => None,
            Some(j) => {
                let key = s.subrange(w[k].0, j);
                let value = s.subrange(j + 1, w[k].1);
                let next = if key == level_word() {
                    match signed_value(value) {
                        Some(v) => Some(
                            Index {
                                module: acc.module,
                                level: v as i64,
                                set: acc.set,
                                dim: acc.dim,
                                regions: acc.regions,
                            },
                        ),
                        None => None,
                    }
                } else if key == set_word() {
                    Some(
                        Index {
                            module: acc.module,
                            level: acc.level,
                            set: value,
                            dim: acc.dim,
                            regions: acc.regions,
                        },
                    )
                } else if key == dim_word() {
                    match signed_value(value) {
                        Some(v) => Some(
                            Index {
                                module: acc.module,
                                level: acc.level,
                                set: acc.set,
                                dim: v as i64,
                                regions: acc.regions,
                            },
                        ),
                        None => None,
                    }
                } else {
                    Some(acc)
                };
                match next {
                    Some(a) => read_fields(s, w, k + 1, a),
                    None => None,
                }
            },
        }
    }
}

/// Where the bytes of a region are: nothing for `-`, and nothing either for
/// a word that is no offset.
pub open spec fn offset_of(o: Seq<u8>) -> Option<usize> {
    if o == emptied_word() {
        None
    } else {
        match unsigned_value(o, 10, usize::MAX as int) {
            Some(x) => Some(x as usize),
            None => None,
        }
    }
}

/// One line of the index, of words `w`, read into `acc`.
///
/// A region that would run past the end of the address space is refused
/// with the rest of the index.
pub open spec fn read_line(s: Seq<u8>, w: Seq<(int, int)>, acc: Index) -> Option<Index> {
    if w.len() == 0 {
        Some(acc)
    } else if text_of(s, w[0]) == plugin_word() {
        if w.len() < 3 {
            None
        } else {
            match (hex_value(text_of(s, w[1])), hex_value(text_of(s, w[2]))) {
                (Some(a), Some(b)) => Some(
                    Index {
                        module: (a as u64, b as u64),
                        level: acc.level,
                        set: acc.set,
                        dim: acc.dim,
                        regions: acc.regions,
                    },
                ),
                _ => None,
            }
        }
    } else if text_of(s, w[0]) == state_word() {
        read_fields(s, w, 1, acc)
    } else if text_of(s, w[0]) == region_word() {
        if w.len() < 4 {
            None
        } else {
            match (
                hex_value(text_of(s, w[1])),
                unsigned_value(text_of(s, w[2]), 10, u64::MAX as int),
            ) {
                (Some(base), Some(size)) => if base + size > u64::MAX {
                    None
                } else {
                    let region = Region {
                        base: base as u64,
                        size: size as u64,
                        offset: offset_of(text_of(s, w[3])),
                    };
                    Some(
                        Index {
                            module: acc.module,
                            level: acc.level,
                            set: acc.set,
                            dim: acc.dim,
                            regions: acc.regions.push(region),
                        },
                    )
                },
                _ => None,
            }
        }
    } else {
        Some(acc)
    }
}

/// Where the line that starts at `i` ends: at its newline, or at the end.
pub open spec fn line_end(s: Seq<u8>, i: int) -> int
    decreases s.len() - i,
{
    if i >= s.len() {
        s.len() as int
    } else if s[i] == 0x0a {
        i
    } else {
        line_end(s, i + 1)
    }
}

pub proof fn lemma_line_end(s: Seq<u8>, i: int)
    requires
        0 <= i,
    ensures
        i <= s.len() ==> i <= line_end(s, i) <= s.len(),
        i < line_end(s, i) ==> forall|j: int| i <= j < line_end(s, i) ==> s[j] != 0x0a,
        line_end(s, i) < s.len() ==> s[line_end(s, i)] == 0x0a,
    decreases s.len() - i,
{
    if i < s.len() && s[i] != 0x0a {
        lemma_line_end(s, i + 1);
    }
}

/// The lines of the index from `i` on, read into `acc`.
pub open spec fn index_from(s: Seq<u8>, i: int, acc: Index) -> Option<Index>
    decreases s.len() - i,
{
    if i >= s.len() || i < 0 {
        Some(acc)
    } else {
        let e = line_end(s, i);
        proof {
            lemma_line_end(s, i);
        }
        match read_line(s, words_of(s, i, e), acc) {
            None => None,
            Some(a) => if e >= s.len() {
                Some(a)
            } else {
                index_from(s, e + 1, a)
            },
        }
    }
}

/// What the index `s` says, or nothing when a line of it is malformed.
pub open spec fn index_of(s: Seq<u8>) -> Option<Index> {
    index_from(s, 0, empty_index())
}

/// Is the text between `b` and `e` the word `w`?
fn is_text(s: &[u8], b: usize, e: usize, w: &[u8]) -> (r: bool)
    requires
        b <= e <= s@.len(),
    ensures
        r == (s@.subrange(b as int, e as int) == w@),
{
    if e - b != w.len() {
        return false;
    }
    let mut k: usize = 0;
    while k < w.len()
        invariant
            b <= e <= s@.len(),
            e - b == w@.len(),
            k <= w@.len(),
            forall|j: int| 0 <= j < k ==> s@[b + j] == w@[j],
        decreases w@.len() - k,
    {
        if s[b + k] != w[k] {
            assert(s@.subrange(b as int, e as int)[k as int] != w@[k as int]);
            return false;
        }
        k = k + 1;
    }
    assert(s@.subrange(b as int, e as int) =~= w@);
    true
}

/// Do all these regions end inside the address space?
pub open spec fn fits(regions: Seq<Region>) -> bool {
    forall|k: int| 0 <= k < regions.len() ==> #[trigger] regions[k].base + regions[k].size <= u64::MAX
}

/// An index being read.
struct Draft {
    module: (u64, u64),
    level: i64,
    set: Vec<u8>,
    dim: i64,
    regions: Vec<Region>,
}

impl View for Draft {
    type V = Index;

    closed spec fn view(&self) -> Index {
        Index {
            module: self.module,
            level: self.level,
            set: self.set@,
            dim: self.dim,
            regions: self.regions@,
        }
    }
}

/// Are all these spans words of `s`?
pub open spec fn within(s: Seq<u8>, w: Seq<(usize, usize)>) -> bool {
    forall|k: int| 0 <= k < w.len() ==> #[trigger] w[k].0 <= w[k].1 <= s.len()
}

/// The first `=` between `b` and `e`.
fn equals_in(s: &[u8], b: usize, e: usize) -> (r: Option<usize>)
    requires
        b <= e <= s@.len(),
    ensures
        r == (match equals_sign(s@, b as int, e as int) {
            Some(j) => Some(j as usize),
            None => None,
        }),
        r matches Some(j) ==> b <= j < e && equals_sign(s@, b as int, e as int) == Some(j as int),
{
    let mut i = b;
    while i < e
        invariant
            b <= i <= e <= s@.len(),
            equals_sign(s@, b as int, e as int) == equals_sign(s@, i as int, e as int),
        decreases e - i,
    {
        if s[i] == 0x3d {
            return Some(i);
        }
        i = i + 1;
    }
    None
}

/// The bytes between `b` and `e`.
fn copy_of(s: &[u8], b: usize, e: usize) -> (r: Vec<u8>)
    requires
        b <= e <= s@.len(),
    ensures
        r@ == s@.subrange(b as int, e as int),
{
    let mut r: Vec<u8> = Vec::new();
    let mut i = b;
    while i < e
        invariant
            b <= i <= e <= s@.len(),
            r@ == s@.subrange(b as int, i as int),
        decreases e - i,
    {
        r.push(s[i]);
        i = i + 1;
        assert(r@ =~= s@.subrange(b as int, i as int));
    }
    r
}

/// The fields of a `state` line, read into `draft`; `false` when one is
/// malformed.
fn read_state(s: &[u8], w: &Vec<(usize, usize)>, draft: &mut Draft) -> (ok: bool)
    requires
        within(s@, w@),
    ensures
        ok == read_fields(s@, spans_view(w@), 1, old(draft)@) is Some,
        ok ==> read_fields(s@, spans_view(w@), 1, old(draft)@) == Some(final(draft)@),
        final(draft)@.regions == old(draft)@.regions,
{
    let ghost sv = spans_view(w@);
    let level: [u8; 5] = [0x6c, 0x65, 0x76, 0x65, 0x6c];
    let set: [u8; 3] = [0x73, 0x65, 0x74];
    let dim: [u8; 3] = [0x64, 0x69, 0x6d];
    assert(level@ == level_word());
    assert(set@ == set_word());
    assert(dim@ == dim_word());
    let mut k: usize = 1;
    if w.len() == 0 {
        return true;
    }
    while k < w.len()
        invariant
            within(s@, w@),
            sv == spans_view(w@),
            1 <= k <= w@.len(),
            level@ == level_word(),
            set@ == set_word(),
            dim@ == dim_word(),
            read_fields(s@, sv, 1, old(draft)@) == read_fields(s@, sv, k as int, draft@),
            draft@.regions == old(draft)@.regions,
        decreases w@.len() - k,
    {
        let (b, e) = w[k];
        assert(w@[k as int].0 <= w@[k as int].1 <= s@.len());
        assert(sv[k as int] == (b as int, e as int));
        let j = match equals_in(s, b, e) {
            Some(j) => j,
            None => {
                return false;
            },
        };
        assert(equals_sign(s@, sv[k as int].0, sv[k as int].1) == Some(j as int));
        if is_text(s, b, j, &level) {
            match signed_in(s, j + 1, e) {
                Some(v) => {
                    draft.level = v;
                },
                None => {
                    return false;
                },
            }
        } else if is_text(s, b, j, &set) {
            draft.set = copy_of(s, j + 1, e);
        } else if is_text(s, b, j, &dim) {
            match signed_in(s, j + 1, e) {
                Some(v) => {
                    draft.dim = v;
                },
                None => {
                    return false;
                },
            }
        }
        k = k + 1;
    }
    true
}

/// One line of the index, of words `w`, read into `draft`; `false` when the
/// line is malformed.
fn read_statement(s: &[u8], w: &Vec<(usize, usize)>, draft: &mut Draft) -> (ok: bool)
    requires
        within(s@, w@),
        fits(old(draft)@.regions),
    ensures
        ok == read_line(s@, spans_view(w@), old(draft)@) is Some,
        ok ==> read_line(s@, spans_view(w@), old(draft)@) == Some(final(draft)@),
        ok ==> fits(final(draft)@.regions),
{
    let ghost sv = spans_view(w@);
    if w.len() == 0 {
        return true;
    }
    let plugin: [u8; 6] = [0x70, 0x6c, 0x75, 0x67, 0x69, 0x6e];
    let state: [u8; 5] = [0x73, 0x74, 0x61, 0x74, 0x65];
    let region: [u8; 6] = [0x72, 0x65, 0x67, 0x69, 0x6f, 0x6e];
    let emptied: [u8; 1] = [0x2d];
    assert(plugin@ == plugin_word());
    assert(state@ == state_word());
    assert(region@ == region_word());
    assert(emptied@ == emptied_word());
    assert(forall|k: int| 0 <= k < w@.len() ==> sv[k] == (w@[k].0 as int, w@[k].1 as int));
    assert(w@[0].0 <= w@[0].1 <= s@.len());
    let (b0, e0) = w[0];
    if is_text(s, b0, e0, &plugin) {
        if w.len() < 3 {
            return false;
        }
        assert(w@[1].0 <= w@[1].1 <= s@.len());
        assert(w@[2].0 <= w@[2].1 <= s@.len());
        let a = hex(s, w[1].0, w[1].1);
        let b = hex(s, w[2].0, w[2].1);
        match (a, b) {
            (Some(a), Some(b)) => {
                draft.module = (a, b);
                true
            },
            _ => false,
        }
    } else if is_text(s, b0, e0, &state) {
        read_state(s, w, draft)
    } else if is_text(s, b0, e0, &region) {
        if w.len() < 4 {
            return false;
        }
        assert(w@[1].0 <= w@[1].1 <= s@.len());
        assert(w@[2].0 <= w@[2].1 <= s@.len());
        assert(w@[3].0 <= w@[3].1 <= s@.len());
        let base = hex(s, w[1].0, w[1].1);
        let size = unsigned_in(s, w[2].0, w[2].1, 10, u64::MAX);
        match (base, size) {
            (Some(base), Some(size)) => {
                if size > u64::MAX - base {
                    return false;
                }
                let (b3, e3) = w[3];
                let offset = if is_text(s, b3, e3, &emptied) {
                    None
                } else {
                    match unsigned_in(s, b3, e3, 10, usize::MAX as u64) {
                        Some(x) => Some(x as usize),
                        None => None,
                    }
                };
                let ghost before = draft.regions@;
                draft.regions.push(Region { base, size, offset });
                assert(fits(draft.regions@)) by {
                    assert forall|k: int| 0 <= k < draft.regions@.len() implies #[trigger] draft.regions@[k].base
                        + draft.regions@[k].size <= u64::MAX by {
                        if k < before.len() {
                            assert(draft.regions@[k] == before[k]);
                        }
                    }
                }
                true
            },
            _ => false,
        }
    } else {
        true
    }
}

/// Where the line that starts at `i` ends.
fn line_end_in(s: &[u8], i: usize) -> (e: usize)
    requires
        i <= s@.len(),
    ensures
        e == line_end(s@, i as int),
        i <= e <= s@.len(),
{
    let mut j = i;
    while j < s.len() && s[j] != 0x0a
        invariant
            i <= j <= s@.len(),
            line_end(s@, i as int) == line_end(s@, j as int),
        decreases s@.len() - j,
    {
        j = j + 1;
    }
    j
}

/// What the index `text` says, or nothing when a line of it is malformed.
fn read_index(text: &str) -> (r: Option<Draft>)
    ensures
        r matches Some(d) ==> index_of(text.spec_bytes()) == Some(d@) && fits(d@.regions),
        r is None ==> index_of(text.spec_bytes()) is None,
{
    let s = text.as_bytes();
    let n = s.len();
    let mut draft = Draft { module: (0, 0), level: -1, set: Vec::new(), dim: -1, regions: Vec::new() };
    assert(draft@ == empty_index()) by {
        assert(draft.set@ =~= Seq::<u8>::empty());
        assert(draft.regions@ =~= Seq::<Region>::empty());
    }
    let mut i: usize = 0;
    while i < n
        invariant
            n == s@.len(),
            s@ == text.spec_bytes(),
            i <= n,
            index_of(s@) == index_from(s@, i as int, draft@),
            fits(draft@.regions),
        decreases n - i,
    {
        let e = line_end_in(s, i);
        let w = words(s, i, e);
        assert(within(s@, w@));
        if !read_statement(s, &w, &mut draft) {
            return None;
        }
        if e >= n {
            i = n;
        } else {
            i = e + 1;
        }
    }
    Some(draft)
}

// -- the capture -------------------------------------------------------------------

/// A heap read out of a running game, served back as its memory.
pub struct Capture {
    bytes: Vec<u8>,
    regions: Vec<Region>,
    module: (u64, u64),
    level: i64,
    set: Vec<u8>,
    dim: i64,
    /// Regions that must read as zeros, whatever the file holds: how a
    /// search for the regions that matter drops one without rewriting the
    /// file.
    masked: Vec<u64>,
}

/// A capture, as values.
pub struct CaptureView {
    /// The unpacked bytes of the regions that were kept.
    pub bytes: Seq<u8>,
    pub regions: Seq<Region>,
    /// Where the plugin was loaded.
    pub module: (u64, u64),
    /// The level the game showed.
    pub level: i64,
    /// The name of the world set the game showed, as the index writes it.
    pub set: Seq<u8>,
    /// The dimension the game showed.
    pub dim: i64,
    /// The bases of the regions that read as zeros.
    pub masked: Seq<u64>,
}

impl View for Capture {
    type V = CaptureView;

    closed spec fn view(&self) -> CaptureView {
        CaptureView {
            bytes: self.bytes@,
            regions: self.regions@,
            module: self.module,
            level: self.level,
            set: self.set@,
            dim: self.dim,
            masked: self.masked@,
        }
    }
}

/// The capture that the index `ix` describes, over `bytes`.
pub open spec fn capture_of(bytes: Seq<u8>, ix: Index) -> CaptureView {
    CaptureView {
        bytes,
        regions: ix.regions,
        module: ix.module,
        level: ix.level,
        set: ix.set,
        dim: ix.dim,
        masked: Seq::empty(),
    }
}

/// Does `r` hold the `len` bytes at `address`?
pub open spec fn covers(r: Region, address: int, len: int) -> bool {
    r.base <= address && address + len <= r.base + r.size
}

/// The first region from the `k`-th on that holds the `len` bytes at
/// `address`.
pub open spec fn covering(regions: Seq<Region>, k: int, address: int, len: int) -> Option<int>
    decreases regions.len() - k,
{
    if k >= regions.len() || k < 0 {
        None
    } else if covers(regions[k], address, len) {
        Some(k)
    } else {
        covering(regions, k + 1, address, len)
    }
}

/// The `len` bytes at `address` in a capture: those of the first region that
/// holds them all, zeros in a region that was emptied or masked, and
/// nothing where no region holds them or the file is too short.
pub open spec fn capture_bytes(c: CaptureView, address: int, len: nat) -> Option<Seq<u8>> {
    if address + len > u64::MAX {
        None
    } else {
        match covering(c.regions, 0, address, len as int) {
            None => None,
            Some(i) => {
                let r = c.regions[i];
                if c.masked.contains(r.base) || r.offset is None {
                    Some(Seq::new(len, |k: int| 0u8))
                } else {
                    let at = r.offset.unwrap() + (address - r.base);
                    if at + len <= c.bytes.len() {
                        Some(c.bytes.subrange(at, at + len))
                    } else {
                        None
                    }
                }
            },
        }
    }
}

/// Is `v` one of `values`?
fn is_listed(values: &Vec<u64>, v: u64) -> (b: bool)
    ensures
        b == values@.contains(v),
{
    let mut i: usize = 0;
    while i < values.len()
        invariant
            i <= values@.len(),
            forall|j: int| 0 <= j < i ==> values@[j] != v,
        decreases values@.len() - i,
    {
        if values[i] == v {
            return true;
        }
        i = i + 1;
    }
    false
}

impl Capture {
    #[verifier::type_invariant]
    spec fn regions_fit(&self) -> bool {
        fits(self.regions@)
    }

    /// Where the plugin was loaded.
    pub fn module(&self) -> (m: (u64, u64))
        ensures
            m == self@.module,
    {
        self.module
    }

    /// The level the game showed.
    pub fn level(&self) -> (l: i64)
        ensures
            l == self@.level,
    {
        self.level
    }

    /// The name of the world set the game showed, as the index writes it.
    pub fn set(&self) -> (s: &[u8])
        ensures
            s@ == self@.set,
    {
        self.set.as_slice()
    }

    /// The dimension the game showed.
    pub fn dim(&self) -> (d: i64)
        ensures
            d == self@.dim,
    {
        self.dim
    }

    /// The regions of the heap.
    pub fn regions(&self) -> (r: &[Region])
        ensures
            r@ == self@.regions,
    {
        self.regions.as_slice()
    }

    /// The address ranges of the regions, as a memory map gives them.
    pub fn ranges(&self) -> (r: Vec<(u64, u64)>)
        ensures
            r@.len() == self@.regions.len(),
            forall|k: int|
                0 <= k < r@.len() ==> #[trigger] r@[k] == (
                    self@.regions[k].base,
                    (self@.regions[k].base + self@.regions[k].size) as u64,
                ),
    {
        proof {
            use_type_invariant(self);
        }
        let mut r: Vec<(u64, u64)> = Vec::new();
        let mut i: usize = 0;
        while i < self.regions.len()
            invariant
                fits(self.regions@),
                i <= self.regions@.len(),
                r@.len() == i,
                forall|k: int|
                    0 <= k < i ==> #[trigger] r@[k] == (
                        self.regions@[k].base,
                        (self.regions@[k].base + self.regions@[k].size) as u64,
                    ),
            decreases self.regions@.len() - i,
        {
            let region = self.regions[i];
            assert(self.regions@[i as int].base + self.regions@[i as int].size <= u64::MAX);
            r.push((region.base, region.base + region.size));
            i = i + 1;
        }
        r
    }

    /// The same capture, where the regions at `bases` read as zeros, and
    /// those alone.
    pub fn mask(&mut self, bases: Vec<u64>)
        ensures
            final(self)@ == (CaptureView { masked: bases@, ..old(self)@ }),
    {
        proof {
            use_type_invariant(&*self);
        }
        self.masked = bases;
    }

    /// The capture that the index `index` describes, over the unpacked
    /// `bytes`; nothing when a line of the index is malformed.
    pub fn parse(index: &str, bytes: Vec<u8>) -> (r: Option<Capture>)
        ensures
            match index_of(index.spec_bytes()) {
                Some(ix) => r matches Some(c) && c@ == capture_of(bytes@, ix),
                None => r is None,
            },
    {
        match read_index(index) {
            Some(draft) => {
                let c = Capture {
                    bytes,
                    regions: draft.regions,
                    module: draft.module,
                    level: draft.level,
                    set: draft.set,
                    dim: draft.dim,
                    masked: Vec::new(),
                };
                assert(c@.masked =~= Seq::<u64>::empty());
                Some(c)
            },
            None => None,
        }
    }

    /// The capture of the index `index` and the packed `heap.bin.gz`;
    /// nothing when either cannot be read.
    pub fn unpack(index: &str, packed: &[u8]) -> (r: Option<Capture>)
        ensures
            match (gunzipped(packed@), index_of(index.spec_bytes())) {
                (Some(bytes), Some(ix)) => r matches Some(c) && c@ == capture_of(bytes, ix),
                _ => r is None,
            },
    {
        match gunzip(packed) {
            Some(bytes) => Capture::parse(index, bytes),
            None => None,
        }
    }
}

impl Memory for Capture {
    open spec fn bytes_at(&self, address: int, len: nat) -> Option<Seq<u8>> {
        capture_bytes(self@, address, len)
    }

    fn read_into(&self, address: u64, buf: &mut [u8]) -> (r: Option<()>) {
        let len = buf.len();
        let end = match address.checked_add(len as u64) {
            Some(end) => end,
            None => {
                return None;
            },
        };
        let ghost c = self@;
        let mut i: usize = 0;
        while i < self.regions.len()
            invariant
                c == self@,
                i <= self.regions@.len(),
                end == address + len,
                len == buf@.len(),
                buf@ == old(buf)@,
                covering(c.regions, 0, address as int, len as int) == covering(
                    c.regions,
                    i as int,
                    address as int,
                    len as int,
                ),
            decreases self.regions@.len() - i,
        {
            let region = self.regions[i];
            if address >= region.base && end - region.base <= region.size {
                assert(covers(c.regions[i as int], address as int, len as int));
                if is_listed(&self.masked, region.base) || region.offset.is_none() {
                    let mut k: usize = 0;
                    while k < len
                        invariant
                            len == buf@.len(),
                            k <= len,
                            forall|j: int| 0 <= j < k ==> buf@[j] == 0u8,
                        decreases len - k,
                    {
                        buf[k] = 0;
                        k = k + 1;
                    }
                    assert(buf@ =~= Seq::new(len as nat, |j: int| 0u8));
                    return Some(());
                }
                let offset = region.offset.unwrap();
                let size = self.bytes.len();
                let into = address - region.base;
                if offset > size || into > (size - offset) as u64 {
                    return None;
                }
                let at = offset + into as usize;
                if len > size - at {
                    return None;
                }
                let mut k: usize = 0;
                while k < len
                    invariant
                        size == c.bytes.len(),
                        c == self@,
                        at + len <= size,
                        len == buf@.len(),
                        k <= len,
                        forall|j: int| 0 <= j < k ==> buf@[j] == c.bytes[at + j],
                    decreases len - k,
                {
                    buf[k] = self.bytes[at + k];
                    k = k + 1;
                }
                assert(buf@ =~= c.bytes.subrange(at as int, at + len));
                return Some(());
            }
            i = i + 1;
        }
        None
    }
}

// -- the packed file ---------------------------------------------------------------

/// The bytes that the first gzip member of `packed` inflates to; nothing
/// when `packed` does not start with a valid member.
pub uninterp spec fn gunzipped(packed: Seq<u8>) -> Option<Seq<u8>>;

/// Inflates `packed` with `flate2::read::GzDecoder`, read to its end with
/// `std::io::Read::read_to_end`. The decoder reads one member and stops
/// there.
///
/// Trusted: the result depends on these bytes alone, so it is named
/// `gunzipped` of them, and `None` stands for the error the decoder
/// answers. Whether a given input inflates, and to what, is left to that
/// name.
#[verifier::external_body]
fn gunzip(packed: &[u8]) -> (r: Option<Vec<u8>>)
    ensures
        match r {
            Some(bytes) => gunzipped(packed@) == Some(bytes@),
            None => gunzipped(packed@) is None,
        },
{
    let mut bytes = Vec::new();
    match flate2::read::GzDecoder::new(packed).read_to_end(&mut bytes) {
        Ok(_) => Some(bytes),
        Err(_) => None,
    }
}

} // verus!
