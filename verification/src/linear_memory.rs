//! The linear memory of a WebAssembly module, read by offset.
//!
//! Every pointer inside a linear memory is an offset from its base. So the
//! reader asks for offsets, and this turns them into addresses of the
//! process, as the process adapter turns addresses into bytes.
use vstd::prelude::*;

use crate::memory::Memory;

verus! {

/// The size of a block a linear memory is swept by.
pub const BLOCK: u64 = 0x10_0000;

/// The largest committed size this cuts: one block short of the address
/// space.
pub const COMMITTED_LIMIT: u64 = 0xffff_ffff_ffef_ffff;

/// Block number `i` of a linear memory with `committed` bytes.
pub open spec fn block_at(committed: int, i: int) -> (u64, u64) {
    let start = i * BLOCK;
    (start as u64, (if start + BLOCK < committed {
        start + BLOCK
    } else {
        committed
    }) as u64)
}

/// How many blocks cut `committed` bytes.
pub open spec fn block_count(committed: int) -> int {
    (committed + BLOCK - 1) / BLOCK as int
}

/// The committed part of a linear memory, as blocks of 1 MiB.
///
/// A linear memory grows at its end. Cut in blocks, the blocks it had stay the
/// same when it grows, and the search sees the new ones as the memory that
/// changed.
pub fn blocks(committed: u64) -> (v: Vec<(u64, u64)>)
    requires
        committed <= COMMITTED_LIMIT,
    ensures
        v@.len() == block_count(committed as int),
        forall|i: int| 0 <= i < v@.len() ==> #[trigger] v@[i] == block_at(committed as int, i),
{
    let mut v: Vec<(u64, u64)> = Vec::new();
    let mut start: u64 = 0;
    while start < committed
        invariant
            committed <= COMMITTED_LIMIT,
            start == v@.len() * BLOCK,
            start < committed + BLOCK,
            v@.len() == block_count(start as int),
            forall|i: int| 0 <= i < v@.len() ==> #[trigger] v@[i] == block_at(committed as int, i),
        decreases committed + BLOCK - start,
    {
        let end = if start + BLOCK < committed {
            start + BLOCK
        } else {
            committed
        };
        v.push((start, end));
        start = start + BLOCK;
        assert(v@.len() == block_count(start as int)) by (nonlinear_arith)
            requires
                start == v@.len() * BLOCK,
        ;
    }
    assert(v@.len() == block_count(committed as int)) by (nonlinear_arith)
        requires
            start == v@.len() * BLOCK,
            committed <= start,
            start < committed + BLOCK,
    ;
    v
}

/// The blocks a linear memory had stay the same when it grows: every whole
/// block of the smaller memory is the same block of the larger one.
pub proof fn blocks_stay_when_the_memory_grows(smaller: u64, larger: u64, i: int)
    requires
        smaller <= larger,
        0 <= i,
        (i + 1) * BLOCK <= smaller,
    ensures
        block_at(smaller as int, i) == block_at(larger as int, i),
{
}

/// A linear memory: `size` bytes of `process`, from `base`.
pub struct LinearMemory<'a, M: Memory> {
    process: &'a M,
    base: u64,
    size: u64,
}

impl<'a, M: Memory> LinearMemory<'a, M> {
    pub fn new(process: &'a M, base: u64, size: u64) -> (l: LinearMemory<'a, M>)
        ensures
            l.process() == process,
            l.base() == base,
            l.size() == size,
    {
        LinearMemory { process, base, size }
    }

    pub closed spec fn process(&self) -> &'a M {
        self.process
    }

    pub closed spec fn base(&self) -> u64 {
        self.base
    }

    pub closed spec fn size(&self) -> u64 {
        self.size
    }

    /// The linear memory as one range of offsets, to sweep.
    pub fn range(&self) -> (r: (u64, u64))
        ensures
            r == (0u64, self.size()),
    {
        (0, self.size)
    }
}

impl<'a, M: Memory> Memory for LinearMemory<'a, M> {
    /// Past the end of the linear memory, the bytes belong to something else.
    open spec fn bytes_at(&self, offset: int, len: nat) -> Option<Seq<u8>> {
        if offset + len <= self.size() && self.base() + offset <= u64::MAX {
            self.process().bytes_at(self.base() + offset, len)
        } else {
            None
        }
    }

    fn read_into(&self, offset: u64, buf: &mut [u8]) -> (r: Option<()>) {
        let end = match offset.checked_add(buf.len() as u64) {
            Some(end) => end,
            None => {
                return None;
            },
        };
        if end > self.size {
            return None;
        }
        let address = match self.base.checked_add(offset) {
            Some(address) => address,
            None => {
                return None;
            },
        };
        self.process.read_into(address, buf)
    }
}

} // verus!
