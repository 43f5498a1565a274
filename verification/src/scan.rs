//! Sweeping the heap, and counting what it costs.
//!
//! What every search needs, whatever the player: read the regions in large
//! blocks, look for a pattern in them, and stop where a pause is due, so that
//! the host can give the tick back and LiveSplit does not freeze. A sweep
//! remembers where it stands, and the search goes on from there.
use vstd::prelude::*;

use crate::memory::Memory;

verus! {

/// Size of a read block. The heap is about a hundred MiB. At 64 KiB that was
/// a good thousand runtime calls per pass, and each call costs far more than
/// the bytes it brings back.
pub const CHUNK: u64 = 0x10_0000;
/// Overlap between two blocks, so a pattern across the edge is not missed.
pub const OVERLAP: u64 = 32;
/// Number of blocks read before a pause is due.
pub const CHUNKS_PER_TICK: u64 = 8;

/// What a search tells whoever listens.
///
/// The reader prints nothing. It says what happens, and the module that hosts
/// it decides what to do with that: print a line, measure, or nothing. Every
/// method does nothing unless a listener says otherwise.
pub trait SearchLog {
    /// A search starts to read the heap.
    fn search_started(&mut self) {
    }

    /// The search moves on to the stage `next`. `requested` bytes in `calls`
    /// block reads were asked for since the search started.
    fn stage(&mut self, next: &'static str, requested: u64, calls: u64) {
    }

    /// One block of the heap was read, or could not be.
    fn block_read(&mut self, bytes: u64, succeeded: bool) {
    }

    /// The search reached a point where it lets one tick pass.
    fn tick_given_back(&mut self) {
    }

    /// How the search will end, when it ends.
    fn outcome(&mut self, outcome: &'static str) {
    }

    /// The search is over, whatever way it took out.
    fn search_finished(&mut self, requested: u64, calls: u64) {
    }

    /// The search looks for the String object of `key`.
    fn string_search(&mut self, key: &str, layout_proven: bool, cached: bool) {
    }

    /// The `GameManager` was found, at this property table.
    fn manager_found(&mut self, table: u64, profile: &'static str) {
    }

    /// A `GameMode` was found without its manager, at this property table.
    fn game_mode_found(&mut self, table: u64, world: &str, profile: &'static str) {
    }

    /// The anchor stayed silent too long, and was dropped.
    fn silent_anchor_dropped(&mut self) {
    }
}

/// A listener that ignores everything.
pub struct Silent;

impl SearchLog for Silent {

}

/// What the scan must count in order to steer itself, and nothing more.
///
/// The budget decides when a pause is due. Everything that only measures --
/// durations, stages, outcome -- goes to the log, and the host decides what
/// to do with it.
pub struct Scan {
    /// Reads asked of the memory, and the bytes they carried.
    calls: u64,
    requested: u64,
}

impl View for Scan {
    type V = (u64, u64);

    /// The reads asked for, and the bytes they carried.
    closed spec fn view(&self) -> (u64, u64) {
        (self.calls, self.requested)
    }
}

/// `a + b`, capped at `u64::MAX`.
pub open spec fn capped(a: u64, b: int) -> u64 {
    if a + b > u64::MAX {
        u64::MAX
    } else {
        (a + b) as u64
    }
}

impl Scan {
    /// A search starts: nothing read yet.
    pub fn new<L: SearchLog>(log: &mut L) -> (s: Scan)
        ensures
            s@ == (0u64, 0u64),
    {
        log.search_started();
        Scan { calls: 0, requested: 0 }
    }

    /// Reads one block, and counts it.
    pub fn read_block<M: Memory, L: SearchLog>(
        &mut self,
        mem: &M,
        base: u64,
        buf: &mut [u8],
        log: &mut L,
    ) -> (ok: bool)
        ensures
            final(self)@ == (capped(old(self)@.0, 1), capped(old(self)@.1, old(buf)@.len() as int)),
            final(buf)@.len() == old(buf)@.len(),
            ok == mem.bytes_at(base as int, old(buf)@.len()) is Some,
            ok ==> mem.bytes_at(base as int, old(buf)@.len()) == Some(final(buf)@),
    {
        self.calls = self.calls.saturating_add(1);
        let len = buf.len() as u64;
        self.requested = self.requested.saturating_add(len);
        let ok = mem.read_into(base, buf).is_some();
        log.block_read(len, ok);
        ok
    }

    /// A pause is due: tell the log.
    pub fn paused<L: SearchLog>(&mut self, log: &mut L)
        ensures
            final(self)@ == old(self)@,
    {
        log.tick_given_back();
    }

    /// Is a pause due after `chunks` blocks?
    pub fn should_yield(&self, chunks: u64) -> (b: bool)
        ensures
            b == (chunks % CHUNKS_PER_TICK == 0),
    {
        chunks % CHUNKS_PER_TICK == 0
    }

    /// Marks the current stage, for the log.
    pub fn stage<L: SearchLog>(&mut self, next: &'static str, log: &mut L)
        ensures
            final(self)@ == old(self)@,
    {
        log.stage(next, self.requested, self.calls);
    }

    /// The outcome of the attempt, for the log.
    pub fn outcome<L: SearchLog>(&mut self, outcome: &'static str, log: &mut L)
        ensures
            final(self)@ == old(self)@,
    {
        log.outcome(outcome);
    }

    /// The search is over: the last stage, and the totals.
    pub fn finish<L: SearchLog>(self, log: &mut L) {
        log.stage("done", self.requested, self.calls);
        log.search_finished(self.requested, self.calls);
    }
}

// -- the blocks of a sweep ------------------------------------------------------

/// The blocks a sweep reads from where it stands: the range at `index`, at
/// `base` in it once `entered`, after `chunks` blocks. Each block is its
/// base, its length, and whether a pause is due once it is read.
///
/// A range is read in blocks of `CHUNK` bytes that overlap by `OVERLAP`, so
/// that a pattern across the edge is not missed; a tail that short ends its
/// range.
pub open spec fn sweep_from(
    ranges: Seq<(u64, u64)>,
    index: int,
    base: u64,
    entered: bool,
    chunks: u64,
) -> Seq<(u64, u64, bool)>
    decreases ranges.len() - index,
        (if entered && 0 <= index < ranges.len() && base <= ranges[index].1 {
            ranges[index].1 - base
        } else {
            0x1_0000_0000_0000_0000int
        }),
{
    if index < 0 || index >= ranges.len() {
        Seq::empty()
    } else {
        let start = ranges[index].0;
        let end = ranges[index].1;
        let b = if entered {
            base
        } else {
            start
        };
        if b < end {
            let n: u64 = if end - b < CHUNK {
                (end - b) as u64
            } else {
                CHUNK
            };
            let c: u64 = if chunks == u64::MAX {
                0
            } else {
                (chunks + 1) as u64
            };
            let pause = c % CHUNKS_PER_TICK == 0 && n > OVERLAP;
            if n <= OVERLAP {
                seq![(b, n, pause)] + sweep_from(ranges, index + 1, b, false, c)
            } else {
                seq![(b, n, pause)] + sweep_from(ranges, index, (b + n - OVERLAP) as u64, true, c)
            }
        } else {
            sweep_from(ranges, index + 1, b, false, chunks)
        }
    }
}

/// The blocks of a whole sweep of the ranges, in the order it reads them.
pub open spec fn sweep_blocks(ranges: Seq<(u64, u64)>) -> Seq<(u64, u64, bool)> {
    sweep_from(ranges, 0, 0, false, 0)
}

/// Does the block hold the `w` bytes at `a` whole, at an offset of the same
/// alignment on eight bytes as `a` has from `start`?
pub open spec fn holds_window(block: (u64, u64, bool), a: int, w: int, start: int) -> bool {
    block.0 <= a && a + w <= block.0 + block.1 && (a - block.0) % 8 == (a - start) % 8
}

#[verifier::spinoff_prover]
#[verifier::rlimit(60)]
proof fn lemma_sweep_covers(
    ranges: Seq<(u64, u64)>,
    index: int,
    base: u64,
    entered: bool,
    chunks: u64,
    k: int,
    a: int,
    w: int,
) -> (j: int)
    requires
        0 <= index <= k < ranges.len(),
        ranges[k].0 <= a,
        a + w <= ranges[k].1,
        0 < w <= OVERLAP,
        k == index && entered ==> ranges[k].0 <= base <= a && (base - ranges[k].0) % 8 == 0,
    ensures
        0 <= j < sweep_from(ranges, index, base, entered, chunks).len(),
        holds_window(sweep_from(ranges, index, base, entered, chunks)[j], a, w, ranges[k].0 as int),
    decreases ranges.len() - index,
        (if entered && 0 <= index < ranges.len() && base <= ranges[index].1 {
            ranges[index].1 - base
        } else {
            0x1_0000_0000_0000_0000int
        }),
{
    let start = ranges[index].0;
    let end = ranges[index].1;
    let b = if entered {
        base
    } else {
        start
    };
    let s = sweep_from(ranges, index, base, entered, chunks);
    if b < end {
        let n: u64 = if end - b < CHUNK {
            (end - b) as u64
        } else {
            CHUNK
        };
        let c: u64 = if chunks == u64::MAX {
            0
        } else {
            (chunks + 1) as u64
        };
        let pause = c % CHUNKS_PER_TICK == 0 && n > OVERLAP;
        if k == index && a + w <= b + n {
            assert(s[0] == (b, n, pause));
            0
        } else if n <= OVERLAP {
            let rest = sweep_from(ranges, index + 1, b, false, c);
            assert(s == seq![(b, n, pause)] + rest);
            let j = lemma_sweep_covers(ranges, index + 1, b, false, c, k, a, w);
            assert(s[j + 1] == rest[j]);
            j + 1
        } else {
            let next = (b + n - OVERLAP) as u64;
            let rest = sweep_from(ranges, index, next, true, c);
            assert(s == seq![(b, n, pause)] + rest);
            let j = lemma_sweep_covers(ranges, index, next, true, c, k, a, w);
            assert(s[j + 1] == rest[j]);
            j + 1
        }
    } else {
        lemma_sweep_covers(ranges, index + 1, b, false, chunks, k, a, w)
    }
}

/// A sweep reads every window of at most `OVERLAP` bytes that lies inside
/// one of the ranges whole in one of its blocks, at an offset that keeps the
/// alignment the window has in its range: the blocks overlap so that nothing
/// across the edge of a block is missed.
pub proof fn a_sweep_misses_nothing_across_an_edge(ranges: Seq<(u64, u64)>, k: int, a: int, w: int)
    requires
        0 <= k < ranges.len(),
        ranges[k].0 <= a,
        a + w <= ranges[k].1,
        0 < w <= OVERLAP,
    ensures
        exists|j: int|
            0 <= j < sweep_blocks(ranges).len() && holds_window(
                #[trigger] sweep_blocks(ranges)[j],
                a,
                w,
                ranges[k].0 as int,
            ),
{
    let j = lemma_sweep_covers(ranges, 0, 0, false, 0, k, a, w);
    assert(holds_window(sweep_blocks(ranges)[j], a, w, ranges[k].0 as int));
}

/// Where a sweep stands: the range it reads, the next block in it, and how
/// many blocks it moved past.
pub struct Sweep {
    index: usize,
    base: u64,
    entered: bool,
    chunks: u64,
}

impl Sweep {
    /// The sweep is inside the ranges, and its block inside its range.
    pub closed spec fn wf(self, ranges: Seq<(u64, u64)>) -> bool {
        &&& self.index <= ranges.len()
        &&& self.entered ==> self.index < ranges.len() && ranges[self.index as int].0 <= self.base
        &&& self.entered && ranges[self.index as int].0 <= ranges[self.index as int].1 ==> self.base
            <= ranges[self.index as int].1
    }

    /// What is left to sweep: a range by range count, then the bytes of the
    /// range it is in.
    pub closed spec fn left(self, ranges: Seq<(u64, u64)>) -> int {
        (ranges.len() - self.index) * 0x2_0000_0000_0000_0000 + if self.entered {
            if self.base <= ranges[self.index as int].1 {
                ranges[self.index as int].1 - self.base
            } else {
                0
            }
        } else {
            0x1_0000_0000_0000_0000
        }
    }

    /// The blocks still to read.
    pub closed spec fn blocks(self, ranges: Seq<(u64, u64)>) -> Seq<(u64, u64, bool)> {
        sweep_from(ranges, self.index as int, self.base, self.entered, self.chunks)
    }

    /// How many blocks the sweep has moved past, counted on 64 bits.
    pub closed spec fn blocks_read(self) -> u64 {
        self.chunks
    }

    /// What is left to sweep is never below zero.
    pub proof fn lemma_left(self, ranges: Seq<(u64, u64)>)
        requires
            self.wf(ranges),
        ensures
            self.left(ranges) >= 0,
    {
    }

    /// A sweep at the start of the first range.
    pub fn new() -> (s: Sweep)
        ensures
            forall|ranges: Seq<(u64, u64)>| s.wf(ranges),
            forall|ranges: Seq<(u64, u64)>| #[trigger] s.left(ranges) >= 0,
            forall|ranges: Seq<(u64, u64)>| #[trigger] s.blocks(ranges) == sweep_blocks(ranges),
    {
        Sweep { index: 0, base: 0, entered: false, chunks: 0 }
    }

    /// The next block to read: its base, its length, and whether a pause is
    /// due once it is read. Blocks overlap by `OVERLAP` bytes, so a pattern
    /// across the edge is not missed; a tail that short ends its range.
    pub fn next_block(&mut self, ranges: &[(u64, u64)]) -> (r: Option<(u64, u64, bool)>)
        requires
            old(self).wf(ranges@),
        ensures
            final(self).wf(ranges@),
            r is Some ==> 0 <= final(self).left(ranges@) < old(self).left(ranges@),
            r matches Some((base, n, _)) ==> 0 < n <= CHUNK && base + n <= u64::MAX && in_ranges(
                ranges@,
                base as int,
                n as int,
            ),
            old(self).blocks(ranges@) == match r {
                Some(b) => seq![b] + final(self).blocks(ranges@),
                None => Seq::empty(),
            },
            r matches Some((_, _, pause)) && pause ==> final(self).blocks_read() % CHUNKS_PER_TICK
                == 0,
    {
        loop
            invariant
                self.wf(ranges@),
                self.left(ranges@) <= old(self).left(ranges@),
                old(self).blocks(ranges@) == self.blocks(ranges@),
            decreases ranges@.len() - self.index, if self.entered {
                0int
            } else {
                1int
            },
        {
            if self.index >= ranges.len() {
                return None;
            }
            let (start, end) = ranges[self.index];
            if !self.entered {
                self.base = start;
                self.entered = true;
            }
            if self.base < end {
                let base = self.base;
                let span = end - base;
                let n = if span < CHUNK {
                    span
                } else {
                    CHUNK
                };
                let ghost before = old(self).left(ranges@);
                if n <= OVERLAP {
                    self.index = self.index + 1;
                    self.entered = false;
                } else {
                    self.base = base + (n - OVERLAP);
                }
                self.chunks = self.chunks.wrapping_add(1);
                let pause = self.chunks % CHUNKS_PER_TICK == 0 && n > OVERLAP;
                assert(ranges@[self.index as int - 1] == (start, end) || ranges@[self.index as int]
                    == (start, end));
                return Some((base, n, pause));
            }
            self.index = self.index + 1;
            self.entered = false;
        }
    }
}

/// Do the `len` bytes at `a` lie inside one of the ranges?
pub open spec fn in_ranges(ranges: Seq<(u64, u64)>, a: int, len: int) -> bool {
    exists|i: int| 0 <= i < ranges.len() && ranges[i].0 <= a && a + len <= ranges[i].1
}

// -- reading a block ------------------------------------------------------------

/// The little-endian qword at `i` in a block.
pub open spec fn qword_in(block: Seq<u8>, i: int) -> u64 {
    crate::memory::le_u64(block.subrange(i, block.len() as int))
}

/// Does `pat` appear at `i` in `block`?
pub open spec fn appears_at(block: Seq<u8>, pat: Seq<u8>, i: int) -> bool {
    0 <= i && i + pat.len() <= block.len() && block.subrange(i, i + pat.len()) == pat
}

/// Does `pat` appear at `i` in `block`?
pub fn bytes_match(block: &[u8], i: usize, pat: &[u8]) -> (b: bool)
    requires
        i + pat@.len() <= block@.len(),
    ensures
        b == appears_at(block@, pat@, i as int),
{
    let blen = block.len();
    let mut k: usize = 0;
    while k < pat.len()
        invariant
            blen == block@.len(),
            i + pat@.len() <= block@.len(),
            k <= pat@.len(),
            forall|j: int| 0 <= j < k ==> block@[i + j] == pat@[j],
        decreases pat@.len() - k,
    {
        if block[i + k] != pat[k] {
            assert(block@.subrange(i as int, i + pat@.len())[k as int] != pat@[k as int]);
            return false;
        }
        k = k + 1;
    }
    assert(block@.subrange(i as int, i + pat@.len()) =~= pat@);
    true
}

/// Is `v` one of `values`?
pub fn one_of(values: &[u64], v: u64) -> (b: bool)
    ensures
        b == values@.contains(v),
{
    let mut k: usize = 0;
    while k < values.len()
        invariant
            k <= values@.len(),
            forall|j: int| 0 <= j < k ==> values@[j] != v,
        decreases values@.len() - k,
    {
        if values[k] == v {
            return true;
        }
        k = k + 1;
    }
    false
}

// -- what a sweep finds ----------------------------------------------------------

/// The first answer of `hit` in the block at `base`, whose bytes are
/// `bytes` and whose length is `len`: at the offsets from `i` on, `step`
/// apart, where `width` bytes still fit.
pub open spec fn first_in_block<T>(
    hit: spec_fn(u64, Seq<u8>, int) -> Option<T>,
    base: u64,
    bytes: Seq<u8>,
    len: int,
    i: int,
    step: int,
    width: int,
) -> Option<T>
    decreases len + 1 - i,
{
    if step <= 0 || i < 0 || i > len || i + width > len {
        None
    } else {
        match hit(base, bytes, i) {
            Some(t) => Some(t),
            None => first_in_block(hit, base, bytes, len, next_offset(len, i, step), step, width),
        }
    }
}

/// The offset after `i`, or just past the block.
pub open spec fn next_offset(len: int, i: int, step: int) -> int {
    if i + step <= len {
        i + step
    } else {
        len + 1
    }
}

/// The first answer of `hit` over the blocks of a sweep, in their order. A
/// block that cannot be read answers nothing.
pub open spec fn first_in_sweep<M: Memory, T>(
    mem: &M,
    blocks: Seq<(u64, u64, bool)>,
    step: int,
    width: int,
    hit: spec_fn(u64, Seq<u8>, int) -> Option<T>,
) -> Option<T>
    decreases blocks.len(),
{
    if blocks.len() == 0 {
        None
    } else {
        let here = match mem.bytes_at(blocks[0].0 as int, blocks[0].1 as nat) {
            Some(bytes) => first_in_block(hit, blocks[0].0, bytes, blocks[0].1 as int, 0, step, width),
            None => None,
        };
        match here {
            Some(t) => Some(t),
            None => first_in_sweep(mem, blocks.drop_first(), step, width, hit),
        }
    }
}

/// The addresses in the block at `base` where `hit` holds: at the offsets
/// from `i` on, `step` apart, where `width` bytes still fit.
pub open spec fn all_in_block(
    hit: spec_fn(u64, Seq<u8>, int) -> bool,
    base: u64,
    bytes: Seq<u8>,
    len: int,
    i: int,
    step: int,
    width: int,
) -> Seq<u64>
    decreases len + 1 - i,
{
    if step <= 0 || i < 0 || i > len || i + width > len {
        Seq::empty()
    } else {
        (if hit(base, bytes, i) {
            seq![(base + i) as u64]
        } else {
            Seq::empty()
        }) + all_in_block(hit, base, bytes, len, next_offset(len, i, step), step, width)
    }
}

/// The addresses where `hit` holds over the blocks of a sweep, in their
/// order. Blocks overlap, so an address can come twice.
pub open spec fn all_in_sweep<M: Memory>(
    mem: &M,
    blocks: Seq<(u64, u64, bool)>,
    step: int,
    width: int,
    hit: spec_fn(u64, Seq<u8>, int) -> bool,
) -> Seq<u64>
    decreases blocks.len(),
{
    if blocks.len() == 0 {
        Seq::empty()
    } else {
        (match mem.bytes_at(blocks[0].0 as int, blocks[0].1 as nat) {
            Some(bytes) => all_in_block(hit, blocks[0].0, bytes, blocks[0].1 as int, 0, step, width),
            None => Seq::empty(),
        }) + all_in_sweep(mem, blocks.drop_first(), step, width, hit)
    }
}

/// A block where no offset from `i` on answers `hit` answers what the
/// blocks after it answer; at an offset that does not answer, the search goes
/// on at the next one.
pub proof fn lemma_first_in_block_next<T>(
    hit: spec_fn(u64, Seq<u8>, int) -> Option<T>,
    base: u64,
    bytes: Seq<u8>,
    len: int,
    i: int,
    step: int,
    width: int,
)
    requires
        step > 0,
        width >= 0,
        0 <= i <= len,
        i + width <= len,
        hit(base, bytes, i) is None,
    ensures
        first_in_block(hit, base, bytes, len, i, step, width) == first_in_block(
            hit,
            base,
            bytes,
            len,
            i + step,
            step,
            width,
        ),
{
    assert(first_in_block(hit, base, bytes, len, len + 1, step, width) is None);
    if i + step > len {
        assert(first_in_block(hit, base, bytes, len, i + step, step, width) is None);
    }
}

/// The answer of a sweep is the answer of its first block, or else that of
/// the blocks after it.
pub proof fn lemma_first_in_sweep_step<M: Memory, T>(
    mem: &M,
    blocks: Seq<(u64, u64, bool)>,
    b: (u64, u64, bool),
    rest: Seq<(u64, u64, bool)>,
    step: int,
    width: int,
    hit: spec_fn(u64, Seq<u8>, int) -> Option<T>,
)
    requires
        blocks == seq![b] + rest,
    ensures
        first_in_sweep(mem, blocks, step, width, hit) == match (match mem.bytes_at(
            b.0 as int,
            b.1 as nat,
        ) {
            Some(bytes) => first_in_block(hit, b.0, bytes, b.1 as int, 0, step, width),
            None => None,
        }) {
            Some(t) => Some(t),
            None => first_in_sweep(mem, rest, step, width, hit),
        },
{
    assert(blocks.drop_first() =~= rest);
    assert(blocks[0] == b);
}

/// The first `n` items of `s`, or all of them when there are fewer.
pub open spec fn at_most<A>(s: Seq<A>, n: int) -> Seq<A> {
    if s.len() <= n {
        s
    } else {
        s.take(n)
    }
}

/// Where `pat` appears.
pub open spec fn pattern_at(pat: Seq<u8>) -> spec_fn(u64, Seq<u8>, int) -> bool {
    |b: u64, bytes: Seq<u8>, i: int| appears_at(bytes, pat, i)
}

/// Where a scan that can be resumed stands when it returns.
pub enum Progress<T> {
    /// The scan is over, with this answer.
    Found(T),
    /// The scan read every block, and found nothing more.
    Exhausted,
    /// A pause is due: the tick goes back to the host, and the scan goes on
    /// from where its sweep stands.
    Paused,
}

/// The aligned addresses where `pat` appears, from where `sweep` stands
/// until a pause is due, added to `out` up to `limit` of them in all.
pub fn scan_bytes_from<M: Memory, L: SearchLog>(
    mem: &M,
    ranges: &[(u64, u64)],
    pat: &[u8],
    align: u64,
    limit: usize,
    out: &mut Vec<u64>,
    sweep: &mut Sweep,
    cost: &mut Scan,
    log: &mut L,
) -> (r: Progress<()>)
    requires
        align > 0,
        old(sweep).wf(ranges@),
        old(out)@.len() < limit || (old(out)@.len() == 0 && limit == 0),
        forall|k: int|
            0 <= k < old(out)@.len() ==> in_ranges(ranges@, #[trigger] old(out)@[k] as int, pat@.len() as int),
    ensures
        final(sweep).wf(ranges@),
        forall|k: int|
            0 <= k < final(out)@.len() ==> in_ranges(ranges@, #[trigger] final(out)@[k] as int, pat@.len() as int),
        match r {
            Progress::Found(_) => final(out)@ == at_most(
                old(out)@ + all_in_sweep(mem, old(sweep).blocks(ranges@), align as int, pat@.len() as int, pattern_at(pat@)),
                if limit == 0 {
                    1
                } else {
                    limit as int
                },
            ),
            Progress::Exhausted => final(out)@ == old(out)@ + all_in_sweep(
                mem,
                old(sweep).blocks(ranges@),
                align as int,
                pat@.len() as int,
                pattern_at(pat@),
            ) && (final(out)@.len() < limit || (final(out)@.len() == 0 && limit == 0)),
            Progress::Paused => old(out)@ + all_in_sweep(
                mem,
                old(sweep).blocks(ranges@),
                align as int,
                pat@.len() as int,
                pattern_at(pat@),
            ) == final(out)@ + all_in_sweep(
                mem,
                final(sweep).blocks(ranges@),
                align as int,
                pat@.len() as int,
                pattern_at(pat@),
            ) && 0 <= final(sweep).left(ranges@) < old(sweep).left(ranges@) && (final(out)@.len() < limit
                || (final(out)@.len() == 0 && limit == 0)) && final(sweep).blocks_read() % CHUNKS_PER_TICK
                == 0,
        },
{
    let ghost hit = pattern_at(pat@);
    let ghost step = align as int;
    let ghost width = pat@.len() as int;
    let ghost all = old(out)@ + all_in_sweep(mem, old(sweep).blocks(ranges@), step, width, hit);
    loop
        invariant
            sweep.wf(ranges@),
            sweep.left(ranges@) <= old(sweep).left(ranges@),
            align > 0,
            sweep.left(ranges@) >= 0,
            out@.len() < limit || (out@.len() == 0 && limit == 0),
            hit == pattern_at(pat@),
            step == align as int,
            width == pat@.len() as int,
            all == old(out)@ + all_in_sweep(mem, old(sweep).blocks(ranges@), step, width, hit),
            all == out@ + all_in_sweep(mem, sweep.blocks(ranges@), step, width, hit),
            forall|k: int|
                0 <= k < out@.len() ==> in_ranges(ranges@, #[trigger] out@[k] as int, pat@.len() as int),
        decreases sweep.left(ranges@),
    {
        let ghost before = sweep.blocks(ranges@);
        let (base, n, pause) = match sweep.next_block(ranges) {
            Some(b) => b,
            None => {
                assert(out@ + Seq::<u64>::empty() =~= out@);
                return Progress::Exhausted;
            },
        };
        let ghost rest = all_in_sweep(mem, sweep.blocks(ranges@), step, width, hit);
        assert(before.drop_first() =~= sweep.blocks(ranges@));
        let mut block = vec![0u8; n as usize];
        if cost.read_block(mem, base, block.as_mut_slice(), log) {
            let ghost bytes = block@;
            let mut i: u64 = 0;
            assert(all =~= out@ + all_in_block(hit, base, bytes, n as int, 0, step, width) + rest);
            while i <= n && n - i >= pat.len() as u64
                invariant
                    sweep.wf(ranges@),
                    block@.len() == n,
                    bytes == block@,
                    i <= n + 1,
                    0 < n <= CHUNK,
                    base + n <= u64::MAX,
                    in_ranges(ranges@, base as int, n as int),
                    align > 0,
                    out@.len() < limit || (out@.len() == 0 && limit == 0),
                    forall|k: int|
                        0 <= k < out@.len() ==> in_ranges(
                            ranges@,
                            #[trigger] out@[k] as int,
                            pat@.len() as int,
                        ),
                    hit == pattern_at(pat@),
                    step == align as int,
                    width == pat@.len() as int,
                    all == out@ + all_in_block(hit, base, bytes, n as int, i as int, step, width)
                        + rest,
                    all == old(out)@ + all_in_sweep(mem, old(sweep).blocks(ranges@), step, width, hit),
                decreases n + 1 - i,
            {
                let ghost got = out@;
                assert(all_in_block(hit, base, bytes, n as int, i as int, step, width) == (if hit(
                    base,
                    bytes,
                    i as int,
                ) {
                    seq![(base + i) as u64]
                } else {
                    Seq::empty()
                }) + all_in_block(hit, base, bytes, n as int, next_offset(n as int, i as int, step), step, width));
                if bytes_match(block.as_slice(), i as usize, pat) {
                    proof {
                        let r = choose|r: int|
                            0 <= r < ranges@.len() && ranges@[r].0 <= base && base + n
                                <= ranges@[r].1;
                        assert(0 <= r < ranges@.len() && ranges@[r].0 <= base + i && base + i
                            + pat@.len() <= ranges@[r].1);
                    }
                    out.push(base + i);
                    assert(out@ =~= got + seq![(base + i) as u64]);
                    assert(all =~= out@ + all_in_block(
                        hit,
                        base,
                        bytes,
                        n as int,
                        next_offset(n as int, i as int, step),
                        step,
                        width,
                    ) + rest);
                    if out.len() >= limit {
                        assert(all.take(out@.len() as int) =~= out@);
                        assert(at_most(all, if limit == 0 { 1 } else { limit as int }) =~= out@);
                        return Progress::Found(());
                    }
                } else {
                    assert(all =~= out@ + all_in_block(
                        hit,
                        base,
                        bytes,
                        n as int,
                        next_offset(n as int, i as int, step),
                        step,
                        width,
                    ) + rest);
                }
                if align > n - i {
                    i = n + 1;
                } else {
                    i = i + align;
                }
            }
            assert(all_in_block(hit, base, bytes, n as int, i as int, step, width) =~= Seq::<
                u64,
            >::empty());
            assert(all =~= out@ + rest);
        } else {
            assert(all == out@ + rest);
        }
        if pause {
            return Progress::Paused;
        }
    }
}

/// Every aligned address where `pat` appears, up to `limit` of them, in the
/// order of the sweep.
pub fn scan_bytes<M: Memory, L: SearchLog>(
    mem: &M,
    ranges: &[(u64, u64)],
    pat: &[u8],
    align: u64,
    limit: usize,
    cost: &mut Scan,
    log: &mut L,
) -> (out: Vec<u64>)
    requires
        align > 0,
    ensures
        out@ == at_most(
            all_in_sweep(mem, sweep_blocks(ranges@), align as int, pat@.len() as int, pattern_at(pat@)),
            if limit == 0 {
                1
            } else {
                limit as int
            },
        ),
        forall|k: int|
            0 <= k < out@.len() ==> in_ranges(ranges@, #[trigger] out@[k] as int, pat@.len() as int),
{
    let ghost all = all_in_sweep(mem, sweep_blocks(ranges@), align as int, pat@.len() as int, pattern_at(pat@));
    let mut out: Vec<u64> = Vec::new();
    let mut sweep = Sweep::new();
    assert(all =~= out@ + all);
    loop
        invariant
            align > 0,
            sweep.wf(ranges@),
            sweep.left(ranges@) >= 0,
            out@.len() < limit || (out@.len() == 0 && limit == 0),
            all == all_in_sweep(mem, sweep_blocks(ranges@), align as int, pat@.len() as int, pattern_at(pat@)),
            all == out@ + all_in_sweep(mem, sweep.blocks(ranges@), align as int, pat@.len() as int, pattern_at(pat@)),
            forall|k: int|
                0 <= k < out@.len() ==> in_ranges(ranges@, #[trigger] out@[k] as int, pat@.len() as int),
        decreases sweep.left(ranges@),
    {
        match scan_bytes_from(mem, ranges, pat, align, limit, &mut out, &mut sweep, cost, log) {
            Progress::Found(_) => {
                return out;
            },
            Progress::Exhausted => {
                return out;
            },
            Progress::Paused => {
                cost.paused(log);
            },
        }
    }
}

/// The ranges, with the first one that holds `addr` swapped with the
/// first of all.
pub open spec fn region_first(ranges: Seq<(u64, u64)>, addr: u64) -> Seq<(u64, u64)> {
    match first_holding(ranges, addr) {
        Some(i) => ranges.update(0, ranges[i]).update(i, ranges[0]),
        None => ranges,
    }
}

/// Moves the region that holds `addr` to the front, if one does.
pub fn move_region_first(ranges: &mut [(u64, u64)], addr: u64)
    ensures
        final(ranges)@ == region_first(old(ranges)@, addr),
{
    let mut i: usize = 0;
    while i < ranges.len()
        invariant
            i <= ranges@.len(),
            ranges@ == old(ranges)@,
            forall|j: int| 0 <= j < i ==> !holds_address(#[trigger] ranges@[j], addr),
        decreases ranges@.len() - i,
    {
        let (a, b) = ranges[i];
        if a <= addr && addr < b {
            proof {
                lemma_first_holding(old(ranges)@, addr, i as int, 0);
            }
            let first = ranges[0];
            ranges[0] = (a, b);
            ranges[i] = first;
            return;
        }
        i = i + 1;
    }
    proof {
        lemma_none_holding(old(ranges)@, addr, 0);
    }
}

/// Does the range hold the address?
pub open spec fn holds_address(range: (u64, u64), addr: u64) -> bool {
    range.0 <= addr < range.1
}

/// The first range, from `from` on, that holds `addr`.
pub open spec fn first_holding_from(ranges: Seq<(u64, u64)>, addr: u64, from: int) -> Option<int>
    decreases ranges.len() - from,
{
    if from < 0 || from >= ranges.len() {
        None
    } else if holds_address(ranges[from], addr) {
        Some(from)
    } else {
        first_holding_from(ranges, addr, from + 1)
    }
}

/// The first range that holds `addr`.
pub open spec fn first_holding(ranges: Seq<(u64, u64)>, addr: u64) -> Option<int> {
    first_holding_from(ranges, addr, 0)
}

proof fn lemma_first_holding(ranges: Seq<(u64, u64)>, addr: u64, i: int, k: int)
    requires
        0 <= k <= i < ranges.len(),
        holds_address(ranges[i], addr),
        forall|j: int| 0 <= j < i ==> !holds_address(#[trigger] ranges[j], addr),
    ensures
        first_holding_from(ranges, addr, k) == Some(i),
    decreases i - k,
{
    if k < i {
        assert(!holds_address(ranges[k], addr));
        lemma_first_holding(ranges, addr, i, k + 1);
    }
}

proof fn lemma_none_holding(ranges: Seq<(u64, u64)>, addr: u64, k: int)
    requires
        0 <= k,
        forall|j: int| 0 <= j < ranges.len() ==> !holds_address(#[trigger] ranges[j], addr),
    ensures
        first_holding_from(ranges, addr, k) is None,
    decreases ranges.len() - k,
{
    if k < ranges.len() {
        assert(!holds_address(ranges[k], addr));
        lemma_none_holding(ranges, addr, k + 1);
    }
}

} // verus!
