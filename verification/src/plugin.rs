//! Which ranges of a player's process hold its heap, decided from the map the
//! runtime gives of the process: the Pepper Flash plugin of EternalTwin, Ruffle
//! desktop, and Ruffle in a Firefox tab.
use vstd::prelude::*;

verus! {

broadcast use vstd::seq_lib::to_multiset_update, vstd::multiset::group_multiset_axioms;

/// What the runtime says of a range of memory.
#[derive(Copy, Clone, Debug, PartialEq, Eq, Structural)]
pub struct RangeFlags {
    pub read: bool,
    pub write: bool,
    /// A file lies behind the range.
    pub path: bool,
}

/// A range of the process: where it starts, how long it is, and what it
/// allows.
#[derive(Copy, Clone, Debug, PartialEq, Eq, Structural)]
pub struct MappedRange {
    pub start: u64,
    pub size: u64,
    pub flags: RangeFlags,
}

/// SpiderMonkey puts one page of its own in front of a linear memory.
pub const LINEAR_MEMORY_HEADER: u64 = 0x1000;
/// A 32-bit linear memory reserves 4 GiB, so that its accesses need no check:
/// the committed part, then a reserve that cannot be read.
pub const LINEAR_MEMORY_RESERVATION: u64 = 0x1_0000_0000;

/// A range the heap may live in: readable and writable, not empty, within
/// the address space, and -- unless `mapped_too` -- with no file behind it.
pub open spec fn is_heap(r: MappedRange, mapped_too: bool) -> bool {
    &&& r.flags.read && r.flags.write
    &&& mapped_too || !r.flags.path
    &&& r.size > 0
    &&& r.start + r.size <= u64::MAX
}

/// The heap ranges among `ranges`, in the order of the map, as bounds.
pub open spec fn heap_of(ranges: Seq<MappedRange>, mapped_too: bool) -> Seq<(u64, u64)>
    decreases ranges.len(),
{
    if ranges.len() == 0 {
        Seq::empty()
    } else {
        let r = ranges.last();
        heap_of(ranges.drop_last(), mapped_too) + if is_heap(r, mapped_too) {
            seq![(r.start, (r.start + r.size) as u64)]
        } else {
            Seq::empty()
        }
    }
}

/// The length of a range given by its bounds.
pub open spec fn span(r: (u64, u64)) -> int {
    r.1 - r.0
}

/// The smallest ranges first.
pub open spec fn smallest_first(v: Seq<(u64, u64)>) -> bool {
    forall|i: int, j: int| 0 <= i < j < v.len() ==> span(v[i]) <= span(v[j])
}

fn heap_filter(ranges: &[MappedRange], mapped_too: bool) -> (v: Vec<(u64, u64)>)
    ensures
        v@ == heap_of(ranges@, mapped_too),
        forall|i: int| 0 <= i < v@.len() ==> v@[i].0 < v@[i].1,
{
    let mut v: Vec<(u64, u64)> = Vec::new();
    let mut i: usize = 0;
    while i < ranges.len()
        invariant
            i <= ranges@.len(),
            v@ == heap_of(ranges@.subrange(0, i as int), mapped_too),
            forall|k: int| 0 <= k < v@.len() ==> v@[k].0 < v@[k].1,
        decreases ranges@.len() - i,
    {
        let r = ranges[i];
        proof {
            assert(ranges@.subrange(0, i + 1).drop_last() =~= ranges@.subrange(0, i as int));
        }
        if r.flags.read && r.flags.write && (mapped_too || !r.flags.path) && r.size > 0 && r.start
            <= u64::MAX - r.size {
            v.push((r.start, r.start + r.size));
        }
        i = i + 1;
        proof {
            let before = heap_of(ranges@.subrange(0, i - 1), mapped_too);
            if is_heap(r, mapped_too) {
                assert(v@ =~= before + seq![(r.start, (r.start + r.size) as u64)]);
            } else {
                assert(v@ =~= before + Seq::<(u64, u64)>::empty());
            }
        }
    }
    assert(ranges@.subrange(0, ranges@.len() as int) =~= ranges@);
    v
}

/// Sorts the ranges by their length, the smallest first.
fn sort_by_span(v: &mut Vec<(u64, u64)>)
    requires
        forall|i: int| 0 <= i < old(v)@.len() ==> old(v)@[i].0 <= old(v)@[i].1,
    ensures
        final(v)@.to_multiset() == old(v)@.to_multiset(),
        final(v)@.len() == old(v)@.len(),
        smallest_first(final(v)@),
{
    let n = v.len();
    let mut i: usize = 1;
    if n == 0 {
        return;
    }
    while i < n
        invariant
            1 <= i <= n,
            n == v@.len(),
            v@.to_multiset() == old(v)@.to_multiset(),
            forall|k: int| 0 <= k < v@.len() ==> v@[k].0 <= v@[k].1,
            forall|a: int, b: int| 0 <= a < b < i ==> span(v@[a]) <= span(v@[b]),
        decreases n - i,
    {
        let mut j: usize = i;
        while j > 0 && v[j - 1].1 - v[j - 1].0 > v[j].1 - v[j].0
            invariant
                0 <= j <= i < n,
                n == v@.len(),
                v@.to_multiset() == old(v)@.to_multiset(),
                forall|k: int| 0 <= k < v@.len() ==> v@[k].0 <= v@[k].1,
                forall|a: int, b: int| 0 <= a < b <= i && b != j ==> span(v@[a]) <= span(v@[b]),
                forall|a: int, b: int| 0 <= a < j && j < b <= i ==> span(v@[a]) <= span(v@[b]),
            decreases j,
        {
            let x = v[j - 1];
            let y = v[j];
            let ghost before = v@;
            v.set(j - 1, y);
            v.set(j, x);
            proof {
                assert(v@ == before.update(j - 1, y).update(j as int, x));
                assert(before.update(j - 1, y).to_multiset() == before.to_multiset().insert(
                    y,
                ).remove(x));
                assert(before.update(j - 1, y)[j as int] == y);
                let m = before.to_multiset();
                assert(m.count(x) > 0) by {
                    assert(before.contains(x)) by {
                        assert(before[j - 1] == x);
                    }
                    vstd::seq_lib::to_multiset_contains(before, x);
                }
                assert(m.insert(y).remove(x).insert(x) =~= m.insert(y));
                assert(m.insert(y).remove(y) =~= m);
                assert(v@.to_multiset() == before.to_multiset());
            }
            j = j - 1;
        }
        i = i + 1;
    }
}

/// The ranges where the AVM1 heap of Pepper Flash lives: readable, writable,
/// and -- except on macOS -- with no file behind them.
///
/// Under Rosetta, every page the guest allocates is attributed to the Rosetta
/// runtime, so the file rule would remove the one thing worth reading. There,
/// the smallest ranges come first: every scan stops at its first answer, and
/// the game objects sit in small ranges.
pub fn heap_ranges(ranges: &[MappedRange], on_macos: bool) -> (v: Vec<(u64, u64)>)
    ensures
        !on_macos ==> v@ == heap_of(ranges@, false),
        on_macos ==> v@.to_multiset() == heap_of(ranges@, true).to_multiset() && smallest_first(
            v@,
        ),
{
    let mut v = heap_filter(ranges, on_macos);
    if on_macos {
        sort_by_span(&mut v);
    }
    v
}

/// The bytes the heap ranges cover, capped at `u64::MAX`.
pub open spec fn heap_bytes(ranges: Seq<(u64, u64)>) -> int
    decreases ranges.len(),
{
    if ranges.len() == 0 {
        0
    } else {
        heap_bytes(ranges.drop_last()) + span(ranges.last())
    }
}

/// Total committed bytes in the heap of Pepper Flash, capped at `u64::MAX`.
///
/// It tells whether a new scan has any chance to learn something: the AVM1
/// objects of the SWF are born together, and the heap grows in one step.
pub fn heap_size(ranges: &[MappedRange], on_macos: bool) -> (size: u64)
    ensures
        size == (if heap_bytes(heap_of(ranges@, on_macos)) > u64::MAX {
            u64::MAX as int
        } else {
            heap_bytes(heap_of(ranges@, on_macos))
        }),
{
    let v = heap_filter(ranges, on_macos);
    let mut total: u64 = 0;
    let mut i: usize = 0;
    while i < v.len()
        invariant
            i <= v@.len(),
            forall|k: int| 0 <= k < v@.len() ==> v@[k].0 < v@[k].1,
            total == (if heap_bytes(v@.subrange(0, i as int)) > u64::MAX {
                u64::MAX as int
            } else {
                heap_bytes(v@.subrange(0, i as int))
            }),
        decreases v@.len() - i,
    {
        proof {
            let next = v@.subrange(0, i + 1);
            assert(next.drop_last() =~= v@.subrange(0, i as int));
        }
        let (a, b) = v[i];
        total = total.saturating_add(b - a);
        i = i + 1;
    }
    assert(v@.subrange(0, v@.len() as int) =~= v@);
    total
}

/// The ranges where Ruffle keeps its AVM1 heap, the likeliest first: `[heap]`,
/// the heap of glibc, when the process has one, then every anonymous range
/// that can be read and written.
pub fn ruffle_heap_ranges(brk_heap: Option<(u64, u64)>, ranges: &[MappedRange]) -> (v: Vec<
    (u64, u64),
>)
    ensures
        v@ == (match brk_heap {
            Some(h) => seq![h],
            None => Seq::empty(),
        }) + heap_of(ranges@, false),
{
    let anonymous = heap_filter(ranges, false);
    let mut v: Vec<(u64, u64)> = Vec::new();
    if let Some(h) = brk_heap {
        v.push(h);
    }
    let ghost first = v@;
    let mut i: usize = 0;
    while i < anonymous.len()
        invariant
            i <= anonymous@.len(),
            v@ == first + anonymous@.subrange(0, i as int),
        decreases anonymous@.len() - i,
    {
        v.push(anonymous[i]);
        i = i + 1;
        proof {
            assert(v@ =~= first + anonymous@.subrange(0, i as int));
        }
    }
    assert(anonymous@.subrange(0, anonymous@.len() as int) =~= anonymous@);
    v
}

/// Is the range at `i` a committed linear memory, followed at once by its
/// reserve? Then its base, past the header, and how far the reservation
/// reaches from there.
pub open spec fn linear_memory_at(ranges: Seq<MappedRange>, i: int) -> Option<(u64, u64)> {
    let r = ranges[i];
    let next = ranges[i + 1];
    let committed = r.flags.read && r.flags.write && !r.flags.path;
    let reserve = r.start + r.size <= u64::MAX && next.start == r.start + r.size
        && !next.flags.read;
    if committed && reserve && r.size + next.size >= LINEAR_MEMORY_RESERVATION && r.start
        + LINEAR_MEMORY_HEADER <= u64::MAX && r.start + r.size + next.size <= u64::MAX && r.size
        + next.size >= LINEAR_MEMORY_HEADER {
        Some(
            (
                (r.start + LINEAR_MEMORY_HEADER) as u64,
                (r.size + next.size - LINEAR_MEMORY_HEADER) as u64,
            ),
        )
    } else {
        None
    }
}

/// The linear memories among the first `n` pairs of neighbouring ranges.
pub open spec fn linear_memories_of(ranges: Seq<MappedRange>, n: int) -> Seq<(u64, u64)>
    decreases n,
{
    if n <= 0 {
        Seq::empty()
    } else {
        linear_memories_of(ranges, n - 1) + match linear_memory_at(ranges, n - 1) {
            Some(m) => seq![m],
            None => Seq::empty(),
        }
    }
}

/// The linear memories of a process: an anonymous range that can be read and
/// written, followed at once by a range that cannot be read, the two of them
/// at least as large as the reservation. Their base, and their span.
pub fn linear_memories(ranges: &[MappedRange]) -> (v: Vec<(u64, u64)>)
    ensures
        v@ == linear_memories_of(ranges@, if ranges@.len() > 0 {
            ranges@.len() - 1
        } else {
            0
        }),
{
    let mut v: Vec<(u64, u64)> = Vec::new();
    if ranges.len() < 2 {
        return v;
    }
    let n = ranges.len();
    let mut i: usize = 0;
    while i + 1 < n
        invariant
            n == ranges@.len(),
            i + 1 <= ranges@.len(),
            v@ == linear_memories_of(ranges@, i as int),
        decreases ranges@.len() - i,
    {
        let r = ranges[i];
        let next = ranges[i + 1];
        let committed = r.flags.read && r.flags.write && !r.flags.path;
        let fits = r.start <= u64::MAX - r.size;
        let reserve = fits && next.start == r.start + r.size && !next.flags.read;
        let large = (r.size as u128) + (next.size as u128) >= LINEAR_MEMORY_RESERVATION as u128;
        let placed = r.start <= u64::MAX - LINEAR_MEMORY_HEADER && (r.start as u128) + (
        r.size as u128) + (next.size as u128) <= u64::MAX as u128;
        if committed && reserve && large && placed {
            v.push((r.start + LINEAR_MEMORY_HEADER, r.size + next.size - LINEAR_MEMORY_HEADER));
        }
        i = i + 1;
        proof {
            let before = linear_memories_of(ranges@, i - 1);
            match linear_memory_at(ranges@, i - 1) {
                Some(m) => assert(v@ =~= before + seq![m]),
                None => assert(v@ =~= before + Seq::<(u64, u64)>::empty()),
            }
        }
    }
    v
}

/// Where the committed part of the linear memory at `base` ends now: the end
/// of the first range whose header page puts it at `base`. It grows with the
/// game.
pub open spec fn committed_end_from(ranges: Seq<MappedRange>, base: u64, from: int) -> Option<u64>
    decreases ranges.len() - from,
{
    if from < 0 || from >= ranges.len() {
        None
    } else if ranges[from].start + LINEAR_MEMORY_HEADER == base && ranges[from].start
        + ranges[from].size <= u64::MAX {
        Some((ranges[from].start + ranges[from].size) as u64)
    } else {
        committed_end_from(ranges, base, from + 1)
    }
}

/// Where the committed part of the linear memory at `base` ends now.
pub fn committed_end(ranges: &[MappedRange], base: u64) -> (end: Option<u64>)
    ensures
        end == committed_end_from(ranges@, base, 0),
{
    let mut i: usize = 0;
    while i < ranges.len()
        invariant
            i <= ranges@.len(),
            committed_end_from(ranges@, base, 0) == committed_end_from(ranges@, base, i as int),
        decreases ranges@.len() - i,
    {
        let r = ranges[i];
        if r.start <= u64::MAX - LINEAR_MEMORY_HEADER && r.start + LINEAR_MEMORY_HEADER == base
            && r.start <= u64::MAX - r.size {
            return Some(r.start + r.size);
        }
        i = i + 1;
    }
    None
}

/// Is the process among those alive?
pub open spec fn still_alive(alive: Seq<u64>) -> spec_fn(u64) -> bool {
    |pid: u64| alive.contains(pid)
}

/// Keeps, of the processes set aside, only those still alive, so the list
/// does not grow without end.
pub fn forget_the_gone(rejected: &mut Vec<u64>, alive: &[u64])
    ensures
        final(rejected)@ == old(rejected)@.filter(still_alive(alive@)),
{
    let mut kept: Vec<u64> = Vec::new();
    let mut i: usize = 0;
    while i < rejected.len()
        invariant
            i <= rejected@.len(),
            kept@ == rejected@.subrange(0, i as int).filter(still_alive(alive@)),
        decreases rejected@.len() - i,
    {
        let pid = rejected[i];
        let mut found = false;
        let mut k: usize = 0;
        while k < alive.len()
            invariant
                k <= alive@.len(),
                found == alive@.subrange(0, k as int).contains(pid),
            decreases alive@.len() - k,
        {
            proof {
                let next = alive@.subrange(0, k + 1);
                assert(next =~= alive@.subrange(0, k as int).push(alive@[k as int]));
                assert(next.contains(pid) == (alive@.subrange(0, k as int).contains(pid)
                    || alive@[k as int] == pid)) by {
                    if next.contains(pid) {
                        let w = choose|w: int| 0 <= w < next.len() && next[w] == pid;
                        if w < k {
                            assert(alive@.subrange(0, k as int)[w] == pid);
                        }
                    }
                    if alive@[k as int] == pid {
                        assert(next[k as int] == pid);
                    }
                    if alive@.subrange(0, k as int).contains(pid) {
                        let w = choose|w: int|
                            0 <= w < k && alive@.subrange(0, k as int)[w] == pid;
                        assert(next[w] == pid);
                    }
                }
            }
            if alive[k] == pid {
                found = true;
            }
            k = k + 1;
        }
        assert(alive@.subrange(0, alive@.len() as int) =~= alive@);
        proof {
            let s = rejected@.subrange(0, i + 1);
            assert(s.drop_last() =~= rejected@.subrange(0, i as int));
            reveal(Seq::filter);
            assert(s =~= rejected@.subrange(0, i as int).push(pid));
        }
        if found {
            kept.push(pid);
        }
        i = i + 1;
    }
    assert(rejected@.subrange(0, rejected@.len() as int) =~= rejected@);
    *rejected = kept;
}

} // verus!
