//! The extent of a Windows executable, read from its PE header.
//!
//! Windows gives a module the size of its image. Wine does not: it maps the
//! first page of the Flash projector from its file and copies the sections
//! into anonymous memory, so the runtime sees a module of one page. The PE
//! header at its base says how large the image is.
use vstd::prelude::*;

use crate::memory::{le_u32, u32_at, Memory};

verus! {

/// Where the DOS header says the NT headers are.
pub const NT_HEADERS_POINTER: u64 = 0x3c;
/// `SizeOfImage`, in the optional header that follows the file header. It
/// sits at the same place in a 32-bit and a 64-bit image.
pub const SIZE_OF_IMAGE: u64 = 0x18 + 0x38;
/// The DOS stub is small: the NT headers of a real executable are within
/// the first page.
pub const MAX_NT_HEADERS: u64 = 0x1000;

/// The doubleword at `address`, when it can be read.
pub open spec fn dword_at<M: Memory>(mem: &M, address: int) -> Option<u32> {
    if address > u64::MAX {
        None
    } else {
        match mem.bytes_at(address, 4) {
            Some(b) => Some(le_u32(b)),
            None => None,
        }
    }
}

/// The executable at `base`: from `base` to the end of its image.
pub open spec fn pe_image<M: Memory>(mem: &M, base: u64) -> Option<(u64, u64)> {
    match mem.bytes_at(base as int, 2) {
        None => None,
        Some(dos) => if !(dos[0] == 0x4d && dos[1] == 0x5a) {
            None
        } else {
            match dword_at(mem, base + NT_HEADERS_POINTER) {
                None => None,
                Some(nt) => if nt > MAX_NT_HEADERS {
                    None
                } else {
                    match mem.bytes_at(base + nt, 4) {
                        None => None,
                        Some(pe) => if !(pe[0] == 0x50 && pe[1] == 0x45 && pe[2] == 0 && pe[3]
                            == 0) {
                            None
                        } else {
                            match dword_at(mem, base + nt + SIZE_OF_IMAGE) {
                                Some(size) => if size > 0 && base + size <= u64::MAX {
                                    Some((base, (base + size) as u64))
                                } else {
                                    None
                                },
                                None => None,
                            }
                        },
                    }
                },
            }
        },
    }
}

fn u32_at_address<M: Memory>(memory: &M, address: u64) -> (r: Option<u32>)
    ensures
        r == dword_at(memory, address as int),
{
    let mut bytes = [0u8; 4];
    if memory.read_into(address, &mut bytes).is_none() {
        return None;
    }
    assert(bytes@.subrange(0, 4) =~= bytes@);
    Some(u32_at(&bytes, 0))
}

/// The executable at `base`, from `base` to the end of its image. Nothing when
/// the bytes at `base` are not a PE header.
pub fn loaded_image<M: Memory>(memory: &M, base: u64) -> (r: Option<(u64, u64)>)
    requires
        base <= u64::MAX - MAX_NT_HEADERS - SIZE_OF_IMAGE,
    ensures
        r == pe_image(memory, base),
{
    let mut dos_magic = [0u8; 2];
    if memory.read_into(base, &mut dos_magic).is_none() {
        return None;
    }
    if !(dos_magic[0] == 0x4d && dos_magic[1] == 0x5a) {
        return None;
    }
    let nt_headers = match u32_at_address(memory, base + NT_HEADERS_POINTER) {
        Some(v) => v as u64,
        None => {
            return None;
        },
    };
    if nt_headers > MAX_NT_HEADERS {
        return None;
    }
    let mut pe_magic = [0u8; 4];
    if memory.read_into(base + nt_headers, &mut pe_magic).is_none() {
        return None;
    }
    if !(pe_magic[0] == 0x50 && pe_magic[1] == 0x45 && pe_magic[2] == 0 && pe_magic[3] == 0) {
        return None;
    }
    let size = match u32_at_address(memory, base + nt_headers + SIZE_OF_IMAGE) {
        Some(v) => v as u64,
        None => {
            return None;
        },
    };
    if size > 0 && base <= u64::MAX - size {
        Some((base, base + size))
    } else {
        None
    }
}

} // verus!
