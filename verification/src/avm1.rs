//! The AVM1 object model inside a Pepper Flash process.
//!
//! String and ScriptObject have the same layout on Linux and on Windows, but
//! property tables do not:
//!
//! ```text
//!                   Linux x86-64        Windows x86-64
//!   entries         tbl+0x18            tbl+0x48
//!   stride          16 bytes            24 bytes
//!   entry           (value, key)        (value, _, key)
//! ```
//!
//! Both forms are tried, and a semantic check decides between them: a profile
//! that does not lead to a known Hammerfest world is rejected. On failure we
//! return nothing. We never return a wrong level.
//!
//! The vtables are not hard coded. They are found at run time, from a string
//! we know the SWF contains.
use vstd::prelude::*;

use crate::atom::{as_int, int_of};
use crate::memory::{le_u64, qword_at, read_u64, u64_at, Memory, ADDRESS_LIMIT};
use crate::text::{utf16_of, utf16_units};

verus! {

/// Table capacity, at `tbl + 0x08` on both platforms.
pub const TBL_CAPACITY: u64 = 0x08;
/// The largest capacity a property table of the game can have.
pub const MAX_CAPACITY: u64 = 0x1_0000;
/// Entries searched back from a key, looking for the header of its table.
///
/// The header is `i * stride + keys` bytes in front of entry `i`, and `i` is
/// unknown. Measured on a running game, the anchor keys sat at entries 2, 61,
/// 70, 97 and 570 of their tables, the largest of which held 793 entries.
pub const MAX_BACK: u64 = 2048;
/// Bytes read at a time while searching back.
pub const BACK_CHUNK: u64 = 8192;
/// Maximum length of a decoded key. Obfuscated names are 2 to 8 characters.
pub const MAX_KEY: usize = 64;
/// The largest offset a layout may name. The measured ones are below 0x80.
pub const MAX_OFFSET: u64 = 0x1000;

/// The geometry of a property table.
#[derive(Copy, Clone, Debug)]
pub struct Profile {
    pub name: &'static str,
    /// Offset of the first key from the base of the table.
    pub keys: u64,
    /// Size of one entry.
    pub stride: u64,
    /// Position of the value, relative to the key.
    pub value: i64,
}

/// The table geometry of Pepper Flash on Windows x86-64.
pub open spec fn windows_profile() -> Profile {
    Profile { name: "windows-x64", keys: 0x58, stride: 24, value: -0x10i64 }
}

/// The table geometry of Pepper Flash on Linux x86-64.
pub open spec fn linux_profile() -> Profile {
    Profile { name: "linux-x64", keys: 0x20, stride: 16, value: -0x08i64 }
}

/// The table geometry of Pepper Flash on Windows x86-64.
pub fn windows_x64() -> (p: Profile)
    ensures
        p == windows_profile(),
{
    Profile { name: "windows-x64", keys: 0x58, stride: 24, value: -0x10i64 }
}

/// The table geometry of Pepper Flash on Linux x86-64.
pub fn linux_x64() -> (p: Profile)
    ensures
        p == linux_profile(),
{
    Profile { name: "linux-x64", keys: 0x20, stride: 16, value: -0x08i64 }
}

/// The geometries both tried, in order.
pub fn profiles() -> (ps: [Profile; 2])
    ensures
        ps@ == seq![windows_profile(), linux_profile()],
{
    [windows_x64(), linux_x64()]
}

/// Candidate offsets for the buffer pointer of a String object.
pub open spec fn str_buf_candidate(i: int) -> u64 {
    if i == 0 {
        0x08
    } else if i == 1 {
        0x10
    } else if i == 2 {
        0x18
    } else if i == 3 {
        0x20
    } else {
        0x00
    }
}

/// How many offsets `str_buf_candidate` names.
pub const STR_BUF_CANDIDATES: usize = 5;

/// Candidate offset number `i` for the buffer pointer of a String object.
pub fn str_buf_candidate_at(i: usize) -> (off: u64)
    requires
        i < STR_BUF_CANDIDATES,
    ensures
        off == str_buf_candidate(i as int),
{
    if i == 0 {
        0x08
    } else if i == 1 {
        0x10
    } else if i == 2 {
        0x18
    } else if i == 3 {
        0x20
    } else {
        0x00
    }
}

/// Candidate offsets for `ScriptObject -> table`. The value is 0x30 on both
/// known platforms, but we still derive it: 0x30 first, then every other
/// qword up to 0x78.
pub open spec fn so_tbl_candidate(i: int) -> u64 {
    if i == 0 {
        0x30
    } else if i <= 5 {
        (i * 8) as u64
    } else {
        ((i + 1) * 8) as u64
    }
}

/// How many offsets `so_tbl_candidate` names.
pub const SO_TBL_CANDIDATES: usize = 15;

fn so_tbl_candidate_at(i: usize) -> (off: u64)
    requires
        i < SO_TBL_CANDIDATES,
    ensures
        off == so_tbl_candidate(i as int),
{
    if i == 0 {
        0x30
    } else if i <= 5 {
        (i * 8) as u64
    } else {
        ((i + 1) * 8) as u64
    }
}

#[derive(Copy, Clone, Debug)]
pub struct Layout {
    pub module: (u64, u64),
    pub str_vt: u64,
    pub str_buf: u64,
    pub str_len: u64,
    pub tbl_vt: u64,
    pub profile: Profile,
    pub so_tbl: u64,
}

/// The UTF-16 units held in `bytes`, two bytes each, little endian.
pub open spec fn units_of(bytes: Seq<u8>, n: int) -> Seq<u16> {
    Seq::new(n as nat, |i: int| (bytes[2 * i] as u16 | (bytes[2 * i + 1] as u16) << 8) as u16)
}

impl Layout {
    /// Every offset of the layout is small: an address read from memory plus
    /// an offset always fits.
    pub open spec fn wf(self) -> bool {
        &&& self.str_buf < MAX_OFFSET
        &&& self.str_len < MAX_OFFSET
        &&& self.so_tbl < MAX_OFFSET
        &&& self.profile.keys < MAX_OFFSET
        &&& 0 < self.profile.stride < MAX_OFFSET
        &&& -(MAX_OFFSET as int) < self.profile.value < MAX_OFFSET
    }

    /// Is `v` an address inside the module?
    pub open spec fn spec_in_module(self, v: u64) -> bool {
        self.module.0 <= v < self.module.1
    }

    /// The UTF-16 units of the String object at `addr`, when it is one.
    pub open spec fn units_at<M: Memory>(self, mem: &M, addr: u64) -> Option<Seq<u16>> {
        if qword_at(mem, addr as int) != Some(self.str_vt) {
            None
        } else {
            match (
                qword_at(mem, addr + self.str_buf),
                qword_at(mem, addr + self.str_len),
            ) {
                (Some(buf), Some(n)) => if n == 0 || n > MAX_KEY {
                    None
                } else {
                    match mem.bytes_at(buf as int, 2 * n as nat) {
                        Some(bytes) => Some(units_of(bytes, n as int)),
                        None => None,
                    }
                },
                _ => None,
            }
        }
    }

    /// Is the String object at `addr` exactly `want`?
    pub open spec fn is_string<M: Memory>(self, mem: &M, addr: u64, want: Seq<char>) -> bool {
        self.units_at(mem, addr) == Some(utf16_of(want))
    }

    /// Does the key stored at `addr` name `want`? A key can be stored as a
    /// raw pointer or as an atom, depending on the platform.
    pub open spec fn names<M: Memory>(self, mem: &M, addr: u64, want: Seq<char>) -> bool {
        match qword_at(mem, addr as int) {
            Some(raw) => self.is_string(mem, (raw - raw % 8) as u64, want),
            None => false,
        }
    }

    /// The capacity of the table at `tbl`, when it is plausible.
    pub open spec fn capacity_of<M: Memory>(self, mem: &M, tbl: u64) -> Option<u64> {
        match qword_at(mem, tbl + TBL_CAPACITY) {
            Some(cap) => if 0 < cap <= MAX_CAPACITY {
                Some(cap)
            } else {
                None
            },
            None => None,
        }
    }

    /// The address of key number `i` in the table at `tbl`.
    pub open spec fn key_address(self, tbl: u64, i: int) -> int {
        tbl + self.profile.keys + i * self.profile.stride
    }

    /// The value stored beside the key at `key`.
    pub open spec fn value_beside<M: Memory>(self, mem: &M, key: int) -> Option<u64> {
        qword_at(mem, key + self.profile.value)
    }

    /// Does entry `i` of the table at `tbl` hold the key `want`?
    pub open spec fn entry_is<M: Memory>(self, mem: &M, tbl: u64, i: int, want: Seq<char>) -> bool {
        self.names(mem, self.key_address(tbl, i) as u64, want)
    }

    /// What `get_cached` answers: the value of the entry whose key is `want`
    /// -- the hinted entry when it still holds that key, otherwise the first
    /// one -- and the hint it leaves.
    pub open spec fn lookup<M: Memory>(self, mem: &M, tbl: u64, want: Seq<char>, hint: u64) -> (
        Option<u64>,
        u64,
    ) {
        match self.capacity_of(mem, tbl) {
            None => (None, hint),
            Some(cap) => if hint < cap && self.entry_is(mem, tbl, hint as int, want) {
                (self.value_beside(mem, self.key_address(tbl, hint as int)), hint)
            } else if exists|i: int| 0 <= i < cap && self.entry_is(mem, tbl, i, want) {
                let i = choose|i: int|
                    0 <= i < cap && self.entry_is(mem, tbl, i, want) && forall|j: int|
                        0 <= j < i ==> !self.entry_is(mem, tbl, j, want);
                (self.value_beside(mem, self.key_address(tbl, i)), i as u64)
            } else {
                (None, hint)
            },
        }
    }

    /// The property table of the object that `atom` points to: the object's
    /// vtable lies in the module, and the table's is the table vtable.
    pub open spec fn table_of_atom<M: Memory>(self, mem: &M, atom: u64) -> Option<u64> {
        let so = (atom - atom % 8) as u64;
        match qword_at(mem, so as int) {
            Some(vt) => if !self.spec_in_module(vt) {
                None
            } else {
                match qword_at(mem, so + self.so_tbl) {
                    Some(t) => if qword_at(mem, t as int) == Some(self.tbl_vt) {
                        Some(t)
                    } else {
                        None
                    },
                    None => None,
                }
            },
            None => None,
        }
    }

    #[inline]
    pub fn in_module(&self, v: u64) -> (b: bool)
        ensures
            b == self.spec_in_module(v),
    {
        v >= self.module.0 && v < self.module.1
    }

    /// Reads a String object into `out`, and returns the number of UTF-16
    /// units.
    pub fn read_string<M: Memory>(&self, mem: &M, addr: u64, out: &mut [u16; 64]) -> (r: Option<
        usize,
    >)
        requires
            self.wf(),
        ensures
            match self.units_at(mem, addr) {
                Some(units) => r == Some(units.len() as usize) && final(out)@.subrange(
                    0,
                    units.len() as int,
                ) == units,
                None => r is None,
            },
            r is None ==> final(out)@ == old(out)@,
            r matches Some(n) ==> forall|j: int| n <= j < 64 ==> final(out)@[j] == old(out)@[j],
    {
        match read_u64(mem, addr) {
            Some(vt) => if vt != self.str_vt {
                return None;
            },
            None => {
                return None;
            },
        }
        let buf = match read_u64(mem, addr + self.str_buf) {
            Some(b) => b,
            None => {
                return None;
            },
        };
        let n64 = match read_u64(mem, addr + self.str_len) {
            Some(n) => n,
            None => {
                return None;
            },
        };
        if n64 == 0 || n64 > MAX_KEY as u64 {
            return None;
        }
        let n = n64 as usize;
        let mut bytes = [0u8; 128];
        let mut wanted: Vec<u8> = Vec::new();
        let mut i: usize = 0;
        while i < 2 * n
            invariant
                wanted@.len() == i,
                i <= 2 * n,
                n <= MAX_KEY,
            decreases 2 * n - i,
        {
            wanted.push(0);
            i = i + 1;
        }
        let ws = wanted.as_mut_slice();
        if mem.read_into(buf, ws).is_none() {
            return None;
        }
        let ghost read = ws@;
        let mut k: usize = 0;
        while k < n
            invariant
                n <= MAX_KEY,
                read.len() == 2 * n,
                ws@ == read,
                k <= n,
                out@.len() == 64,
                forall|j: int| 0 <= j < k ==> out@[j] == units_of(read, n as int)[j],
                forall|j: int| k <= j < 64 ==> out@[j] == old(out)@[j],
            decreases n - k,
        {
            out[k] = ws[2 * k] as u16 | (ws[2 * k + 1] as u16) << 8;
            k = k + 1;
        }
        assert(out@.subrange(0, n as int) =~= units_of(read, n as int));
        Some(n)
    }

    /// Is the string at `addr` exactly `want`?
    pub fn string_eq<M: Memory>(&self, mem: &M, addr: u64, want: &str) -> (b: bool)
        requires
            self.wf(),
        ensures
            b == self.is_string(mem, addr, want@),
    {
        let mut buf = [0u16; 64];
        let n = match self.read_string(mem, addr, &mut buf) {
            Some(n) => n,
            None => {
                return false;
            },
        };
        let ghost units = self.units_at(mem, addr)->0;
        assert(units.len() <= 64);
        let expected = utf16_units(want);
        if expected.len() != n {
            return false;
        }
        let mut i: usize = 0;
        while i < n
            invariant
                n == units.len(),
                n <= 64,
                buf@.len() == 64,
                self.units_at(mem, addr) == Some(units),
                expected@ == utf16_of(want@),
                expected@.len() == n,
                buf@.subrange(0, n as int) == units,
                i <= n,
                forall|j: int| 0 <= j < i ==> expected@[j] == units[j],
            decreases n - i,
        {
            assert(units[i as int] == buf@.subrange(0, n as int)[i as int]);
            if buf[i] != expected[i] {
                assert(expected@[i as int] != units[i as int]);
                return false;
            }
            i = i + 1;
        }
        assert(expected@ =~= units);
        true
    }

    // -- tables ------------------------------------------------------------
    pub fn capacity<M: Memory>(&self, mem: &M, tbl: u64) -> (r: Option<u64>)
        ensures
            r == self.capacity_of(mem, tbl),
            r is Some ==> tbl < ADDRESS_LIMIT,
    {
        if tbl >= ADDRESS_LIMIT {
            return None;
        }
        match read_u64(mem, tbl + TBL_CAPACITY) {
            Some(cap) => if cap > 0 && cap <= MAX_CAPACITY {
                Some(cap)
            } else {
                None
            },
            None => None,
        }
    }

    /// Address of key number `i` in the table.
    #[inline]
    pub fn key_addr(&self, tbl: u64, i: u64) -> (a: u64)
        requires
            self.key_address(tbl, i as int) <= u64::MAX,
        ensures
            a == self.key_address(tbl, i as int),
    {
        assert(i * self.profile.stride >= 0) by (nonlinear_arith);
        tbl + self.profile.keys + i * self.profile.stride
    }

    /// The keys of a table that lies below the address limit, up to the
    /// largest capacity, lie below the limit too, give or take one entry.
    proof fn lemma_key_address_fits(self, tbl: u64, i: u64)
        requires
            self.wf(),
            tbl < ADDRESS_LIMIT,
            i <= MAX_CAPACITY,
        ensures
            0 <= i * self.profile.stride <= MAX_CAPACITY * MAX_OFFSET,
            self.key_address(tbl, i as int) < ADDRESS_LIMIT + MAX_CAPACITY * MAX_OFFSET + MAX_OFFSET,
    {
        assert(0 <= i * self.profile.stride <= MAX_CAPACITY * MAX_OFFSET) by (nonlinear_arith)
            requires
                i <= MAX_CAPACITY,
                self.profile.stride < MAX_OFFSET,
        ;
    }

    /// The name of the key stored at `addr`. It masks the tag, because a key
    /// can be stored as a raw pointer or as an atom, depending on the
    /// platform.
    pub fn key_is<M: Memory>(&self, mem: &M, addr: u64, want: &str) -> (b: bool)
        requires
            self.wf(),
        ensures
            b == self.names(mem, addr, want@),
    {
        match read_u64(mem, addr) {
            Some(raw) => {
                assert(raw & !7u64 == ((raw - (raw & 7u64)) as u64)) by (bit_vector);
                assert(raw & 7 == raw % 8) by (bit_vector);
                self.string_eq(mem, raw & !7, want)
            },
            None => false,
        }
    }

    fn value_at<M: Memory>(&self, mem: &M, k: u64) -> (r: Option<u64>)
        requires
            self.wf(),
            k < ADDRESS_LIMIT + MAX_CAPACITY * MAX_OFFSET + MAX_OFFSET,
        ensures
            r == self.value_beside(mem, k as int),
    {
        let at = k as i64 + self.profile.value;
        if at < 0 {
            return None;
        }
        read_u64(mem, at as u64)
    }

    /// The atom of property `key`, or None.
    pub fn get<M: Memory>(&self, mem: &M, tbl: u64, key: &str) -> (r: Option<u64>)
        requires
            self.wf(),
        ensures
            r == self.lookup(mem, tbl, key@, 0).0,
    {
        let mut ignored: u64 = 0;
        self.get_cached(mem, tbl, key, &mut ignored)
    }

    /// Like `get`, but it remembers the index of the entry.
    ///
    /// Walking the 128 entries of a table on every read would cost hundreds of
    /// memory accesses per tick. So we keep the index -- but we check it again
    /// before use: if the key is no longer there, we search again. The thing
    /// we must never keep is the *final* address, not the path.
    pub fn get_cached<M: Memory>(&self, mem: &M, tbl: u64, key: &str, hint: &mut u64) -> (r:
        Option<u64>)
        requires
            self.wf(),
        ensures
            (r, *final(hint)) == self.lookup(mem, tbl, key@, *old(hint)),
    {
        let cap = match self.capacity(mem, tbl) {
            Some(cap) => cap,
            None => {
                return None;
            },
        };
        if *hint < cap {
            proof {
                self.lemma_key_address_fits(tbl, *hint);
            }
            let k = self.key_addr(tbl, *hint);
            if self.key_is(mem, k, key) {
                return self.value_at(mem, k);
            }
        }
        let mut i: u64 = 0;
        while i < cap
            invariant
                self.wf(),
                tbl < ADDRESS_LIMIT,
                self.capacity_of(mem, tbl) == Some(cap),
                cap <= MAX_CAPACITY,
                i <= cap,
                *hint == *old(hint),
                !(*old(hint) < cap && self.entry_is(mem, tbl, *old(hint) as int, key@)),
                forall|j: int| 0 <= j < i ==> !self.entry_is(mem, tbl, j, key@),
            decreases cap - i,
        {
            proof {
                self.lemma_key_address_fits(tbl, i);
            }
            let k = self.key_addr(tbl, i);
            if self.key_is(mem, k, key) {
                *hint = i;
                proof {
                    let c = choose|c: int|
                        0 <= c < cap && self.entry_is(mem, tbl, c, key@) && forall|j: int|
                            0 <= j < c ==> !self.entry_is(mem, tbl, j, key@);
                    assert(0 <= i < cap && self.entry_is(mem, tbl, i as int, key@) && forall|
                        j: int,
                    | 0 <= j < i ==> !self.entry_is(mem, tbl, j, key@));
                    if c < i {
                    } else if c > i {
                        assert(!self.entry_is(mem, tbl, i as int, key@));
                    }
                }
                return self.value_at(mem, k);
            }
            i = i + 1;
        }
        None
    }

    pub fn get_int<M: Memory>(&self, mem: &M, tbl: u64, key: &str) -> (r: Option<i64>)
        requires
            self.wf(),
        ensures
            r == (match self.lookup(mem, tbl, key@, 0).0 {
                Some(atom) => int_of(atom),
                None => None,
            }),
    {
        match self.get(mem, tbl, key) {
            Some(atom) => as_int(atom),
            None => None,
        }
    }

    /// The property table of the object that `atom` points to.
    pub fn table_of<M: Memory>(&self, mem: &M, atom: u64) -> (r: Option<u64>)
        requires
            self.wf(),
        ensures
            r == self.table_of_atom(mem, atom),
            r matches Some(t) ==> t < ADDRESS_LIMIT,
    {
        assert(atom & !7u64 == ((atom - (atom & 7u64)) as u64)) by (bit_vector);
        assert(atom & 7 == atom % 8) by (bit_vector);
        let so = atom & !7;
        match read_u64(mem, so) {
            Some(vt) => if !self.in_module(vt) {
                return None;
            },
            None => {
                return None;
            },
        }
        let t = match read_u64(mem, so + self.so_tbl) {
            Some(t) => t,
            None => {
                return None;
            },
        };
        match read_u64(mem, t) {
            Some(vt) => if vt == self.tbl_vt {
                Some(t)
            } else {
                None
            },
            None => None,
        }
    }

    /// The table of the object stored under `key`.
    pub fn child<M: Memory>(&self, mem: &M, tbl: u64, key: &str) -> (r: Option<u64>)
        requires
            self.wf(),
        ensures
            r == (match self.lookup(mem, tbl, key@, 0).0 {
                Some(atom) => self.table_of_atom(mem, atom),
                None => None,
            }),
    {
        match self.get(mem, tbl, key) {
            Some(atom) => self.table_of(mem, atom),
            None => None,
        }
    }

    pub fn child_cached<M: Memory>(&self, mem: &M, tbl: u64, key: &str, hint: &mut u64) -> (r:
        Option<u64>)
        requires
            self.wf(),
        ensures
            *final(hint) == self.lookup(mem, tbl, key@, *old(hint)).1,
            r == (match self.lookup(mem, tbl, key@, *old(hint)).0 {
                Some(atom) => self.table_of_atom(mem, atom),
                None => None,
            }),
    {
        match self.get_cached(mem, tbl, key, hint) {
            Some(atom) => self.table_of(mem, atom),
            None => None,
        }
    }
}


// -- deriving the rest of a layout -------------------------------------------------

impl Layout {
    /// The table that the candidate offset `off` of the object at `so` leads
    /// to: its vtable is the table vtable, and its capacity is plausible.
    pub open spec fn candidate_table<M: Memory>(self, mem: &M, so: u64, off: u64) -> Option<u64> {
        match qword_at(mem, so + off) {
            Some(t) => if qword_at(mem, t as int) == Some(self.tbl_vt) && self.capacity_of(
                mem,
                t,
            ) is Some {
                Some(t)
            } else {
                None
            },
            None => None,
        }
    }

    /// What `derive_so_tbl` finds, from candidate `i` on: the table that holds
    /// `key`, and the offset it leaves in `so_tbl` -- the last candidate that
    /// led to a table, whether or not the key was there.
    pub open spec fn so_tbl_search<M: Memory>(
        self,
        mem: &M,
        so: u64,
        key: Seq<char>,
        i: int,
        so_tbl: u64,
    ) -> (Option<u64>, u64)
        decreases SO_TBL_CANDIDATES - i,
    {
        if i >= SO_TBL_CANDIDATES {
            (None, so_tbl)
        } else {
            let off = so_tbl_candidate(i);
            match self.candidate_table(mem, so, off) {
                Some(t) => if self.holds_key(mem, t, key) {
                    (Some(t), off)
                } else {
                    self.so_tbl_search(mem, so, key, i + 1, off)
                },
                None => self.so_tbl_search(mem, so, key, i + 1, so_tbl),
            }
        }
    }

    /// Does the table at `tbl` hold `key`?
    #[verifier::opaque]
    pub open spec fn holds_key<M: Memory>(self, mem: &M, tbl: u64, key: Seq<char>) -> bool {
        self.lookup(mem, tbl, key, 0).0 is Some
    }

    /// Does the table at `tbl` hold `key`?
    fn has_key<M: Memory>(&self, mem: &M, tbl: u64, key: &str) -> (b: bool)
        requires
            self.wf(),
        ensures
            b == self.holds_key(mem, tbl, key@),
    {
        proof {
            reveal(Layout::holds_key);
        }
        self.get(mem, tbl, key).is_some()
    }

    /// What `derive_so_tbl` answers for the object `atom` points to.
    pub open spec fn derived_so_tbl<M: Memory>(self, mem: &M, atom: u64, key: Seq<char>) -> (
        Option<u64>,
        u64,
    ) {
        let so = (atom - atom % 8) as u64;
        match qword_at(mem, so as int) {
            Some(vt) => if self.spec_in_module(vt) {
                self.so_tbl_search(mem, so, key, 0, self.so_tbl)
            } else {
                (None, self.so_tbl)
            },
            None => (None, self.so_tbl),
        }
    }

    /// Finds the offset of the table pointer inside a ScriptObject, from an
    /// object that must hold `expect_key`, and returns that table.
    pub fn derive_so_tbl<M: Memory>(&mut self, mem: &M, atom: u64, expect_key: &str) -> (r: Option<
        u64,
    >)
        requires
            old(self).wf(),
        ensures
            (r, final(self).so_tbl) == old(self).derived_so_tbl(mem, atom, expect_key@),
            *final(self) == (Layout { so_tbl: final(self).so_tbl, ..*old(self) }),
            final(self).wf(),
    {
        assert(atom & !7u64 == ((atom - (atom & 7u64)) as u64)) by (bit_vector);
        assert(atom & 7 == atom % 8) by (bit_vector);
        let so = atom & !7;
        match read_u64(mem, so) {
            Some(vt) => if !self.in_module(vt) {
                return None;
            },
            None => {
                return None;
            },
        }
        let start = *self;
        let mut i: usize = 0;
        while i < SO_TBL_CANDIDATES
            invariant
                start.wf(),
                start == *old(self),
                0 < so < ADDRESS_LIMIT,
                i <= SO_TBL_CANDIDATES,
                *self == (Layout { so_tbl: self.so_tbl, ..start }),
                self.so_tbl < MAX_OFFSET,
                start.derived_so_tbl(mem, atom, expect_key@) == start.so_tbl_search(
                    mem,
                    so,
                    expect_key@,
                    i as int,
                    self.so_tbl,
                ),
            decreases SO_TBL_CANDIDATES - i,
        {
            let off = so_tbl_candidate_at(i);
            let t = match read_u64(mem, so + off) {
                Some(t) => t,
                None => {
                    i = i + 1;
                    continue;
                },
            };
            if read_u64(mem, t) != Some(self.tbl_vt) {
                i = i + 1;
                continue;
            }
            if self.capacity(mem, t).is_none() {
                i = i + 1;
                continue;
            }
            self.so_tbl = off;
            if start.has_key(mem, t, expect_key) {
                return Some(t);
            }
            i = i + 1;
        }
        None
    }

    /// The vtable in front of the candidate base `tbl`, when the candidate is
    /// the table: the reference vtable (or, while none is known, a pointer
    /// into the module), and a capacity that covers `index`. The header comes
    /// from `chunk`, read at `lo`, or from `tbl` itself when the chunk could
    /// not be read.
    pub open spec fn base_accepts<M: Memory>(
        self,
        mem: &M,
        chunk: Option<Seq<u8>>,
        lo: u64,
        tbl: u64,
        index: int,
    ) -> Option<u64> {
        let vt = match chunk {
            Some(bytes) => Some(le_u64(bytes.subrange(tbl - lo, bytes.len() as int))),
            None => qword_at(mem, tbl as int),
        };
        match vt {
            None => None,
            Some(vt) => if (if self.tbl_vt == 0 {
                !self.spec_in_module(vt)
            } else {
                vt != self.tbl_vt
            }) {
                None
            } else {
                let cap = match chunk {
                    Some(bytes) => {
                        let c = le_u64(bytes.subrange(tbl - lo + 8, bytes.len() as int));
                        if 0 < c <= MAX_CAPACITY {
                            Some(c)
                        } else {
                            None
                        }
                    },
                    None => self.capacity_of(mem, tbl),
                };
                match cap {
                    Some(c) => if index >= c {
                        None
                    } else {
                        Some(vt)
                    },
                    None => None,
                }
            },
        }
    }

    /// The first candidate base of a chunk, from the `k`-th nearest on, that
    /// is the table, with its vtable.
    pub open spec fn base_in_chunk<M: Memory>(
        self,
        mem: &M,
        chunk: Option<Seq<u8>>,
        lo: u64,
        hi: u64,
        i: int,
        k: int,
        n: int,
    ) -> Option<(u64, u64)>
        decreases n - k,
    {
        if k >= n {
            None
        } else {
            let tbl = (hi - k * self.profile.stride) as u64;
            match self.base_accepts(mem, chunk, lo, tbl, i + k) {
                Some(vt) => Some((tbl, vt)),
                None => self.base_in_chunk(mem, chunk, lo, hi, i, k + 1, n),
            }
        }
    }

    /// How many candidates the chunk that starts at entry `i` covers.
    pub open spec fn chunk_len(self, i: int) -> int {
        let per = BACK_CHUNK / self.profile.stride;
        if per < MAX_BACK - i {
            per as int
        } else {
            MAX_BACK - i
        }
    }

    /// The first chunk of candidates fits the read buffer: `BACK_CHUNK` bytes
    /// of headers, and the header of the last one. A stride that makes it
    /// longer, or that leaves no candidate in a chunk, is no table geometry.
    pub open spec fn fits_one_read(self) -> bool {
        &&& 0 < self.profile.stride <= BACK_CHUNK
        &&& (self.chunk_len(0) - 1) * self.profile.stride <= BACK_CHUNK - 8
    }

    /// What `table_base` finds, from entry `i` back on: the base of the table
    /// and its vtable. The search stops when the key is too close to the
    /// bottom of the address space for the next chunk.
    pub open spec fn base_from<M: Memory>(self, mem: &M, keyslot: u64, i: int) -> Option<(u64, u64)>
        decreases MAX_BACK - i,
    {
        if i < 0 || i >= MAX_BACK || self.profile.stride == 0 || self.profile.stride > BACK_CHUNK {
            None
        } else {
            let n = self.chunk_len(i);
            let back = i * self.profile.stride + self.profile.keys;
            if keyslot < back || keyslot - back < (n - 1) * self.profile.stride {
                None
            } else {
                let hi = (keyslot - back) as u64;
                let lo = (hi - (n - 1) * self.profile.stride) as u64;
                let chunk = mem.bytes_at(lo as int, (hi - lo + 16) as nat);
                match self.base_in_chunk(mem, chunk, lo, hi, i, 0, n) {
                    Some(found) => Some(found),
                    None => {
                        proof {
                            assert(BACK_CHUNK / self.profile.stride >= 1) by (nonlinear_arith)
                                requires
                                    0 < self.profile.stride <= BACK_CHUNK,
                            ;
                        }
                        self.base_from(mem, keyslot, i + n)
                    },
                }
            }
        }
    }

    /// The base of the table that contains `keyslot`, for the current profile.
    ///
    /// The header is searched back from the key, one chunk of candidates per
    /// read. A wrong profile gives a base whose vtable is not a vtable, so it
    /// rejects itself. If `tbl_vt` is unknown (zero), any pointer into the
    /// module will do and becomes the reference vtable: that is how it is
    /// derived instead of hard coded.
    pub fn table_base<M: Memory>(&mut self, mem: &M, keyslot: u64) -> (r: Option<u64>)
        requires
            old(self).wf(),
            old(self).fits_one_read(),
        ensures
            match old(self).base_from(mem, keyslot, 0) {
                Some((tbl, vt)) => r == Some(tbl) && *final(self) == (Layout {
                    tbl_vt: vt,
                    ..*old(self)
                }),
                None => r is None && *final(self) == *old(self),
            },
    {
        let stride = self.profile.stride;
        let keys = self.profile.keys;
        let mut i: u64 = 0;
        while i < MAX_BACK
            invariant
                self.wf(),
                *self == *old(self),
                stride == self.profile.stride,
                keys == self.profile.keys,
                0 < stride < MAX_OFFSET,
                old(self).fits_one_read(),
                i <= MAX_BACK,
                old(self).base_from(mem, keyslot, 0) == old(self).base_from(mem, keyslot, i as int),
            decreases MAX_BACK - i,
        {
            let per = BACK_CHUNK / stride;
            let n = if per < MAX_BACK - i {
                per
            } else {
                MAX_BACK - i
            };
            assert(1 <= per) by (nonlinear_arith)
                requires
                    per == BACK_CHUNK / stride,
                    0 < stride <= BACK_CHUNK,
            ;
            let ghost first = old(self).chunk_len(0);
            assert(n <= first);
            assert((n - 1) * stride <= (first - 1) * stride) by (nonlinear_arith)
                requires
                    1 <= n <= first,
                    0 < stride,
            ;
            assert(i * stride <= MAX_BACK * MAX_OFFSET) by (nonlinear_arith)
                requires
                    i <= MAX_BACK,
                    stride < MAX_OFFSET,
            ;
            let back = i * stride + keys;
            if keyslot < back {
                return None;
            }
            let hi = keyslot - back;
            if hi < (n - 1) * stride {
                return None;
            }
            let lo = hi - (n - 1) * stride;
            let span = (hi - lo) as usize + 16;
            let mut buf = vec![0u8; span];
            let read = mem.read_into(lo, buf.as_mut_slice()).is_some();
            let ghost chunk = mem.bytes_at(lo as int, span as nat);
            assert(read ==> chunk == Some(buf@));
            let mut k: u64 = 0;
            while k < n
                invariant
                    self.wf(),
                    *self == *old(self),
                    stride == self.profile.stride,
                    0 < stride < MAX_OFFSET,
                    i < MAX_BACK,
                    n == old(self).chunk_len(i as int),
                    1 <= n,
                    (n - 1) * stride <= BACK_CHUNK - 8,
                    hi - lo == (n - 1) * stride,
                    span == hi - lo + 16,
                    buf@.len() == span,
                    chunk == mem.bytes_at(lo as int, span as nat),
                    read ==> chunk == Some(buf@),
                    !read ==> chunk is None,
                    k <= n,
                    old(self).base_from(mem, keyslot, 0) == old(self).base_from(
                        mem,
                        keyslot,
                        i as int,
                    ),
                    old(self).base_from(mem, keyslot, i as int) == match old(self).base_in_chunk(
                        mem,
                        chunk,
                        lo,
                        hi,
                        i as int,
                        k as int,
                        n as int,
                    ) {
                        Some(found) => Some(found),
                        None => old(self).base_from(mem, keyslot, i + n),
                    },
                decreases n - k,
            {
                assert(k * stride <= (n - 1) * stride) by (nonlinear_arith)
                    requires
                        k < n,
                ;
                let tbl = hi - k * stride;
                let off = (tbl - lo) as usize;
                let vt = if read {
                    match u64_at(buf.as_slice(), off) {
                        Some(vt) => vt,
                        None => {
                            return None;
                        },
                    }
                } else {
                    match read_u64(mem, tbl) {
                        Some(vt) => vt,
                        None => {
                            k = k + 1;
                            continue;
                        },
                    }
                };
                if self.tbl_vt == 0 {
                    if !self.in_module(vt) {
                        k = k + 1;
                        continue;
                    }
                } else if vt != self.tbl_vt {
                    k = k + 1;
                    continue;
                }
                let cap = if read {
                    match u64_at(buf.as_slice(), off + 8) {
                        Some(c) => if c > 0 && c <= MAX_CAPACITY {
                            Some(c)
                        } else {
                            None
                        },
                        None => None,
                    }
                } else {
                    self.capacity(mem, tbl)
                };
                let cap = match cap {
                    Some(c) => c,
                    None => {
                        k = k + 1;
                        continue;
                    },
                };
                if i + k >= cap {
                    k = k + 1;
                    continue;
                }
                assert(old(self).base_accepts(mem, chunk, lo, tbl, i + k) == Some(vt));
                assert(old(self).base_in_chunk(mem, chunk, lo, hi, i as int, k as int, n as int)
                    == Some((tbl, vt)));
                self.tbl_vt = vt;
                return Some(tbl);
            }
            i = i + n;
        }
        None
    }
}


/// The keys of a table follow one another: the first one `keys` bytes from
/// the base of the table, each next one `stride` bytes further.
pub proof fn keys_follow_one_another(l: Layout, tbl: u64, i: int)
    ensures
        l.key_address(tbl, 0) == tbl + l.profile.keys,
        l.key_address(tbl, i + 1) == l.key_address(tbl, i) + l.profile.stride,
{
    assert((i + 1) * l.profile.stride == i * l.profile.stride + l.profile.stride)
        by (nonlinear_arith);
}

/// A key names the String object it points at, whether it is stored as a
/// raw pointer or as an atom, with a tag in its three low bits; and a key
/// that cannot be read names nothing.
pub proof fn a_tagged_key_names_its_string<M: Memory>(
    l: Layout,
    mem: &M,
    addr: u64,
    want: Seq<char>,
    p: u64,
    t: u64,
)
    requires
        p % 8 == 0,
        t < 8,
    ensures
        qword_at(mem, addr as int) == Some(p) ==> (l.names(mem, addr, want) <==> l.is_string(mem, p, want)),
        qword_at(mem, addr as int) == Some((p + t) as u64) ==> (l.names(mem, addr, want) <==> l.is_string(
            mem,
            p,
            want,
        )),
        qword_at(mem, addr as int) is None ==> !l.names(mem, addr, want),
{
    assert(((p + t) as u64) % 8 == t);
}

} // verus!
