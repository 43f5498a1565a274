//! The extent of a Linux executable, read from its ELF header.
//!
//! LiveSplit gives a module the sum of the sizes of its mappings. That is its
//! extent only when the mappings follow each other, and the Flash projector
//! leaves a gap of 2 MiB between its code and its data. The ELF header at its
//! base says where each segment is loaded, so it says where the image ends.
use vstd::prelude::*;

use crate::memory::{le_u16, le_u32, le_u64, u16_at, u32_at, u64_at, Memory};

verus! {

/// `ET_EXEC`: loaded at the addresses its segments name.
pub const FIXED_ADDRESS_EXECUTABLE: u16 = 2;
pub const PT_LOAD: u32 = 1;
/// A real executable has about a dozen program headers.
pub const MAX_PROGRAM_HEADERS: u16 = 64;
pub const HEADER_SIZE: usize = 0x40;
pub const PROGRAM_HEADER_SIZE: usize = 0x38;

/// The field at `offset` of a header.
pub open spec fn field(bytes: Seq<u8>, offset: int) -> Seq<u8> {
    bytes.subrange(offset, bytes.len() as int)
}

/// The first bytes of a 64-bit, little-endian ELF file loaded at fixed
/// addresses.
pub open spec fn is_fixed_address_executable(header: Seq<u8>) -> bool {
    &&& header[0] == 0x7f && header[1] == 0x45 && header[2] == 0x4c && header[3] == 0x46
    &&& header[4] == 2
    &&& header[5] == 1
    &&& le_u16(field(header, 0x10)) == FIXED_ADDRESS_EXECUTABLE
}

/// Where program header `index` ends its segment in memory: `Some(None)` for a
/// segment that is not loaded, `None` when the header cannot be read or its
/// end does not fit in an address.
pub open spec fn segment_end<M: Memory>(mem: &M, headers: int, size: int, index: int) -> Option<
    Option<u64>,
> {
    let at = headers + index * size;
    if at > u64::MAX {
        None
    } else {
        match mem.bytes_at(at, PROGRAM_HEADER_SIZE as nat) {
            None => None,
            Some(h) => if le_u32(h) != PT_LOAD {
                Some(None)
            } else {
                let end = le_u64(field(h, 0x10)) + le_u64(field(h, 0x28));
                if end > u64::MAX {
                    None
                } else {
                    Some(Some(end as u64))
                }
            },
        }
    }
}

/// The larger of two ends, where no end is below any end.
pub open spec fn later(a: Option<u64>, b: Option<u64>) -> Option<u64> {
    match (a, b) {
        (Some(x), Some(y)) => Some(if x < y { y } else { x }),
        (Some(x), None) => Some(x),
        (None, y) => y,
    }
}

/// The end of the last loadable segment among the first `count` program
/// headers, or `None` when one of them cannot be read.
pub open spec fn image_end<M: Memory>(mem: &M, headers: int, size: int, count: int) -> Option<
    Option<u64>,
>
    decreases count,
{
    if count <= 0 {
        Some(None)
    } else {
        match (image_end(mem, headers, size, count - 1), segment_end(mem, headers, size, count - 1)) {
            (Some(a), Some(b)) => Some(later(a, b)),
            _ => None,
        }
    }
}

/// One program header that cannot be read spoils the whole image.
proof fn lemma_unreadable_spoils<M: Memory>(mem: &M, headers: int, size: int, k: int, n: int)
    requires
        0 <= k <= n,
        image_end(mem, headers, size, k) is None,
    ensures
        image_end(mem, headers, size, n) is None,
    decreases n - k,
{
    if k < n {
        lemma_unreadable_spoils(mem, headers, size, k + 1, n);
        assert(image_end(mem, headers, size, k + 1) is None);
    }
}

/// The image from `base` to `end`, when there is an end past the base.
pub open spec fn image_to(end: Option<Option<u64>>, base: u64) -> Option<(u64, u64)> {
    match end {
        Some(Some(e)) => if e > base {
            Some((base, e))
        } else {
            None
        },
        _ => None,
    }
}

/// The executable at `base`: from `base` to the end of its last loadable
/// segment.
pub open spec fn elf_image<M: Memory>(mem: &M, base: u64) -> Option<(u64, u64)> {
    match mem.bytes_at(base as int, HEADER_SIZE as nat) {
        None => None,
        Some(header) => {
            let headers = base + le_u64(field(header, 0x20));
            let size = le_u16(field(header, 0x36));
            let count = le_u16(field(header, 0x38));
            if !is_fixed_address_executable(header) || headers > u64::MAX || count
                > MAX_PROGRAM_HEADERS || size < PROGRAM_HEADER_SIZE {
                None
            } else {
                image_to(image_end(mem, headers, size as int, count as int), base)
            }
        },
    }
}

/// The executable at `base`, from `base` to the end of its last loadable
/// segment. Nothing when the bytes at `base` are not the ELF header of a
/// 64-bit executable loaded at fixed addresses.
pub fn loaded_image<M: Memory>(memory: &M, base: u64) -> (r: Option<(u64, u64)>)
    ensures
        r == elf_image(memory, base),
{
    let mut header = [0u8; 0x40];
    if memory.read_into(base, &mut header).is_none() {
        return None;
    }
    let is_fixed_address_executable = header[0] == 0x7f && header[1] == 0x45 && header[2] == 0x4c
        && header[3] == 0x46 && header[4] == 2 && header[5] == 1 && u16_at(&header, 0x10)
        == FIXED_ADDRESS_EXECUTABLE;
    if !is_fixed_address_executable {
        return None;
    }
    let offset = match u64_at(&header, 0x20) {
        Some(offset) => offset,
        None => {
            return None;
        },
    };
    let program_headers = match base.checked_add(offset) {
        Some(at) => at,
        None => {
            return None;
        },
    };
    let program_header_size = u16_at(&header, 0x36) as u64;
    let program_header_count = u16_at(&header, 0x38);
    if program_header_count > MAX_PROGRAM_HEADERS || program_header_size < 0x38 {
        return None;
    }
    let mut end: Option<u64> = None;
    let mut index: u64 = 0;
    while index < program_header_count as u64
        invariant
            index <= program_header_count,
            program_header_count <= MAX_PROGRAM_HEADERS,
            program_header_size <= u16::MAX,
            image_end(memory, program_headers as int, program_header_size as int, index as int)
                == Some(end),
            elf_image(memory, base) == image_to(
                image_end(
                    memory,
                    program_headers as int,
                    program_header_size as int,
                    program_header_count as int,
                ),
                base,
            ),
        decreases program_header_count - index,
    {
        let ghost before = end;
        assert(index * program_header_size <= 64 * 0xffff) by (nonlinear_arith)
            requires
                index <= 64,
                program_header_size <= 0xffff,
        ;
        let at = match program_headers.checked_add(index * program_header_size) {
            Some(at) => at,
            None => {
                proof {
                    lemma_unreadable_spoils(
                        memory,
                        program_headers as int,
                        program_header_size as int,
                        index + 1,
                        program_header_count as int,
                    );
                }
                return None;
            },
        };
        let mut program_header = [0u8; 0x38];
        if memory.read_into(at, &mut program_header).is_none() {
            proof {
                lemma_unreadable_spoils(
                    memory,
                    program_headers as int,
                    program_header_size as int,
                    index + 1,
                    program_header_count as int,
                );
            }
            return None;
        }
        index = index + 1;
        if u32_at(&program_header, 0) != PT_LOAD {
            continue;
        }
        let address = match u64_at(&program_header, 0x10) {
            Some(v) => v,
            None => {
                return None;
            },
        };
        let length = match u64_at(&program_header, 0x28) {
            Some(v) => v,
            None => {
                return None;
            },
        };
        let segment_end = match address.checked_add(length) {
            Some(e) => e,
            None => {
                proof {
                    lemma_unreadable_spoils(
                        memory,
                        program_headers as int,
                        program_header_size as int,
                        index as int,
                        program_header_count as int,
                    );
                }
                return None;
            },
        };
        end = match end {
            Some(e) => Some(if e < segment_end {
                segment_end
            } else {
                e
            }),
            None => Some(segment_end),
        };
    }
    match end {
        Some(e) => if e > base {
            Some((base, e))
        } else {
            None
        },
        None => None,
    }
}

} // verus!
