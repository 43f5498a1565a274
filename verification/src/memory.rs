//! What the reader reads through: bytes at an address, or nothing.
use vstd::prelude::*;

verus! {

/// Everything the reader needs from a process.
///
/// One method, because the reader makes exactly one kind of raw read: "give
/// me these bytes". The contract is ours, so a test double implements it
/// without borrowing a word of the runtime ABI.
///
/// `read_into` fills `buf` whole, or returns `None`. The caller then has no
/// partially true buffer to mistake for a value: the reader refuses rather
/// than defaults.
pub trait Memory {
    /// The `len` bytes at `address`, when all of them can be read.
    spec fn bytes_at(&self, address: int, len: nat) -> Option<Seq<u8>>;

    /// Fills `buf` with the bytes at `address`, or answers `None`. On `None`
    /// the buffer holds nothing the caller may use.
    fn read_into(&self, address: u64, buf: &mut [u8]) -> (r: Option<()>)
        ensures
            final(buf)@.len() == old(buf)@.len(),
            r is Some <==> self.bytes_at(address as int, old(buf)@.len()) is Some,
            r is Some ==> self.bytes_at(address as int, old(buf)@.len()) == Some(final(buf)@),
    ;
}

/// The highest address a user-space pointer can hold, plus one.
pub const ADDRESS_LIMIT: u64 = 0x8000_0000_0000;

/// The little-endian qword in front of `bytes`.
pub open spec fn le_u64(bytes: Seq<u8>) -> u64 {
    vstd::bytes::spec_u64_from_le_bytes(bytes.subrange(0, 8))
}

/// The little-endian doubleword in front of `bytes`.
pub open spec fn le_u32(bytes: Seq<u8>) -> u32 {
    (bytes[0] as u32 | (bytes[1] as u32) << 8 | (bytes[2] as u32) << 16 | (bytes[3] as u32)
        << 24) as u32
}

/// The little-endian word in front of `bytes`.
pub open spec fn le_u16(bytes: Seq<u8>) -> u16 {
    (bytes[0] as u16 | (bytes[1] as u16) << 8) as u16
}

/// The qword at `addr`: nothing at the null address, nothing above user
/// space, nothing that cannot be read.
pub open spec fn qword_at<M: Memory>(mem: &M, addr: int) -> Option<u64> {
    if addr <= 0 || addr >= ADDRESS_LIMIT {
        None
    } else {
        match mem.bytes_at(addr, 8) {
            Some(bytes) => Some(le_u64(bytes)),
            None => None,
        }
    }
}

/// The qword at `offset` in a buffer already read.
pub fn u64_at(buf: &[u8], offset: usize) -> (r: Option<u64>)
    ensures
        r == (if offset + 8 <= buf@.len() {
            Some(le_u64(buf@.subrange(offset as int, buf@.len() as int)))
        } else {
            None
        }),
{
    if offset > buf.len() || buf.len() - offset < 8 {
        return None;
    }
    let mut eight = [0u8; 8];
    let mut i: usize = 0;
    let n = buf.len();
    while i < 8
        invariant
            n == buf@.len(),
            offset + 8 <= buf@.len(),
            i <= 8,
            eight@.len() == 8,
            forall|j: int| 0 <= j < i ==> eight@[j] == buf@[offset + j],
        decreases 8 - i,
    {
        eight[i] = buf[offset + i];
        i = i + 1;
    }
    assert(eight@ =~= buf@.subrange(offset as int, buf@.len() as int).subrange(0, 8));
    Some(vstd::bytes::u64_from_le_bytes(&eight))
}

/// The doubleword at `offset` in a buffer already read.
pub fn u32_at(buf: &[u8], offset: usize) -> (r: u32)
    requires
        offset + 4 <= buf@.len(),
    ensures
        r == le_u32(buf@.subrange(offset as int, buf@.len() as int)),
{
    buf[offset] as u32 | (buf[offset + 1] as u32) << 8 | (buf[offset + 2] as u32) << 16 | (
    buf[offset + 3] as u32) << 24
}

/// The word at `offset` in a buffer already read.
pub fn u16_at(buf: &[u8], offset: usize) -> (r: u16)
    requires
        offset + 2 <= buf@.len(),
    ensures
        r == le_u16(buf@.subrange(offset as int, buf@.len() as int)),
{
    buf[offset] as u16 | (buf[offset + 1] as u16) << 8
}

/// Both the Flash player and the host are x86-64, so the bytes are little
/// endian on each side of this call.
pub fn read_u64<M: Memory>(mem: &M, addr: u64) -> (r: Option<u64>)
    ensures
        r == qword_at(mem, addr as int),
{
    if addr == 0 || addr >= ADDRESS_LIMIT {
        return None;
    }
    let mut bytes = [0u8; 8];
    match mem.read_into(addr, &mut bytes) {
        None => None,
        Some(()) => {
            assert(bytes@.subrange(0, 8) =~= bytes@);
            Some(vstd::bytes::u64_from_le_bytes(&bytes))
        },
    }
}

// -- the bytes a test serves ---------------------------------------------------

/// Ranges of bytes, each at its base address: the memory a test serves the
/// reader.
pub struct Heap {
    /// Base address and contents of each range.
    pub regions: Vec<(u64, Vec<u8>)>,
}

/// The ranges of a heap, as values.
pub open spec fn regions_of(regions: Seq<(u64, Vec<u8>)>) -> Seq<(u64, Seq<u8>)> {
    regions.map_values(|r: (u64, Vec<u8>)| (r.0, r.1@))
}

/// Does this range hold `address`?
pub open spec fn holds(range: (u64, Seq<u8>), address: int) -> bool {
    range.0 <= address < range.0 + range.1.len()
}

/// The first range that holds `address`.
pub open spec fn range_holding(regions: Seq<(u64, Seq<u8>)>, address: int) -> Option<int>
    decreases regions.len(),
{
    if regions.len() == 0 {
        None
    } else if holds(regions[0], address) {
        Some(0)
    } else {
        match range_holding(regions.drop_first(), address) {
            Some(i) => Some(i + 1),
            None => None,
        }
    }
}

proof fn lemma_range_holding(regions: Seq<(u64, Seq<u8>)>, address: int)
    ensures
        range_holding(regions, address) matches Some(i) ==> {
            &&& 0 <= i < regions.len()
            &&& holds(regions[i], address)
            &&& forall|j: int| 0 <= j < i ==> !holds(#[trigger] regions[j], address)
        },
        range_holding(regions, address) is None ==> forall|j: int|
            0 <= j < regions.len() ==> !holds(#[trigger] regions[j], address),
    decreases regions.len(),
{
    if regions.len() > 0 {
        lemma_range_holding(regions.drop_first(), address);
        if !holds(regions[0], address) {
            assert forall|j: int| 1 <= j < regions.len() implies regions[j] == regions.drop_first()[j
                - 1] by {}
        }
    }
}

impl Heap {
    /// A heap with no byte at all.
    pub fn new() -> (h: Heap)
        ensures
            h.regions@.len() == 0,
    {
        Heap { regions: Vec::new() }
    }

    /// The same heap, with `bytes` at `base` after its other ranges.
    pub fn with_range(self, base: u64, bytes: Vec<u8>) -> (h: Heap)
        ensures
            h.regions@ == self.regions@.push((base, bytes)),
    {
        let mut heap = self;
        heap.regions.push((base, bytes));
        heap
    }
}

impl Default for Heap {
    fn default() -> (h: Heap)
        ensures
            h.regions@.len() == 0,
    {
        Heap::new()
    }
}

impl Memory for Heap {
    /// The bytes of the first range that holds `address`, when the read ends
    /// inside it. A read that crosses from one range into the next is refused.
    open spec fn bytes_at(&self, address: int, len: nat) -> Option<Seq<u8>> {
        let regions = regions_of(self.regions@);
        match range_holding(regions, address) {
            None => None,
            Some(i) => {
                let offset = address - regions[i].0;
                if offset + len <= regions[i].1.len() {
                    Some(regions[i].1.subrange(offset, offset + len))
                } else {
                    None
                }
            },
        }
    }

    fn read_into(&self, address: u64, buf: &mut [u8]) -> (r: Option<()>) {
        let ghost regions = regions_of(self.regions@);
        proof {
            lemma_range_holding(regions, address as int);
        }
        let mut i: usize = 0;
        while i < self.regions.len()
            invariant
                regions == regions_of(self.regions@),
                i <= self.regions@.len(),
                buf@ == old(buf)@,
                forall|j: int| 0 <= j < i ==> !holds(#[trigger] regions[j], address as int),
            decreases self.regions@.len() - i,
        {
            let base = self.regions[i].0;
            let bytes = &self.regions[i].1;
            if address >= base && address - base < bytes.len() as u64 {
                assert(regions[i as int] == (base, bytes@));
                assert(holds(regions[i as int], address as int));
                proof {
                    lemma_range_holding(regions, address as int);
                }
                assert(range_holding(regions, address as int) == Some(i as int));
                let offset = (address - base) as usize;
                if offset > bytes.len() || bytes.len() - offset < buf.len() {
                    return None;
                }
                let mut k: usize = 0;
                let size = bytes.len();
                while k < buf.len()
                    invariant
                        size == bytes@.len(),
                        offset + old(buf)@.len() <= bytes@.len(),
                        buf@.len() == old(buf)@.len(),
                        k <= buf@.len(),
                        forall|j: int| 0 <= j < k ==> buf@[j] == bytes@[offset + j],
                    decreases buf@.len() - k,
                {
                    buf[k] = bytes[offset + k];
                    k = k + 1;
                }
                assert(buf@ =~= bytes@.subrange(offset as int, offset + buf@.len()));
                return Some(());
            }
            i = i + 1;
        }
        None
    }
}

} // verus!
