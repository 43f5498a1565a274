//! The heap of Pepper Flash, as the Hammerfest strategy asks for it.
//!
//! Each answer is one of the layout's own reads, unchanged.
use vstd::prelude::*;

use crate::atom::{as_int, int_of, ptr, tag, FALSE, NULL, TAG_DOUBLE, TAG_INT, TAG_OBJECT, TAG_STRING, TRUE};
use crate::avm1::{windows_profile, windows_x64, Layout};
use crate::heap::{Number, Object, ObjectReference, Slot, StringReference, Value};
use crate::memory::{le_u16, le_u32, le_u64, qword_at, read_u64, u16_at, u32_at, Memory, ADDRESS_LIMIT};
use crate::scan::{
    Progress,
    all_in_sweep,
    appears_at,
    at_most,
    bytes_match,
    first_in_block,
    first_in_sweep,
    lemma_first_in_block_next,
    lemma_first_in_sweep_step,
    one_of,
    pattern_at,
    qword_in,
    scan_bytes_from,
    in_ranges,
    sweep_blocks,
    Scan,
    SearchLog,
    Sweep,
};
use crate::text::{utf16_of, utf16_units};

verus! {

/// An atom, as a value. Only a float costs a read: it does not fit in its
/// atom.
pub open spec fn atom_value<M: Memory>(mem: &M, atom: u64) -> Option<Value> {
    if atom == NULL {
        Some(Value::Null)
    } else if atom == TRUE {
        Some(Value::Bool(true))
    } else if atom == FALSE {
        Some(Value::Bool(false))
    } else if atom % 8 == TAG_INT {
        Some(Value::Number(Number::Int(int_of(atom)->0)))
    } else if atom % 8 == TAG_DOUBLE {
        match qword_at(mem, atom - atom % 8) {
            Some(raw) => Some(Value::Number(Number::Double(raw))),
            None => None,
        }
    } else if atom % 8 == TAG_STRING {
        Some(Value::String(StringReference((atom - atom % 8) as u64)))
    } else if atom % 8 == TAG_OBJECT {
        Some(Value::Object(ObjectReference((atom - atom % 8) as u64)))
    } else {
        Some(Value::Other)
    }
}

/// A Pepper Flash heap, read with one layout.
#[derive(Copy, Clone, Debug)]
pub struct PepperFlashHeap {
    layout: Layout,
}

impl View for PepperFlashHeap {
    type V = Layout;

    closed spec fn view(&self) -> Layout {
        self.layout
    }
}

impl PepperFlashHeap {
    pub fn new(layout: Layout) -> (h: PepperFlashHeap)
        ensures
            h@ == layout,
    {
        PepperFlashHeap { layout }
    }

    pub fn layout(&self) -> (l: Layout)
        ensures
            l == self@,
    {
        self.layout
    }

    /// An atom, as a value.
    fn decode<M: Memory>(&self, memory: &M, value: u64) -> (r: Option<Value>)
        ensures
            r == atom_value(memory, value),
    {
        if value == NULL {
            return Some(Value::Null);
        }
        if value == TRUE {
            return Some(Value::Bool(true));
        }
        if value == FALSE {
            return Some(Value::Bool(false));
        }
        let t = tag(value);
        if t == TAG_INT {
            match as_int(value) {
                Some(i) => Some(Value::Number(Number::Int(i))),
                None => None,
            }
        } else if t == TAG_DOUBLE {
            match read_u64(memory, ptr(value)) {
                Some(raw) => Some(Value::Number(Number::Double(raw))),
                None => None,
            }
        } else if t == TAG_STRING {
            Some(Value::String(StringReference(ptr(value))))
        } else if t == TAG_OBJECT {
            Some(Value::Object(ObjectReference(ptr(value))))
        } else {
            Some(Value::Other)
        }
    }

    /// What the property `key` of `object` holds, or `None` when the object
    /// has no such property, or it cannot be read. The slot is the index the
    /// table lookup leaves.
    pub fn property<M: Memory>(&self, memory: &M, object: Object, key: &str, slot: &mut Slot) -> (r:
        Option<Value>)
        requires
            self@.wf(),
        ensures
            final(slot).0 == self@.lookup(memory, object.0, key@, old(slot).0).1,
            r == (match self@.lookup(memory, object.0, key@, old(slot).0).0 {
                Some(atom) => atom_value(memory, atom),
                None => None,
            }),
    {
        match self.layout.get_cached(memory, object.0, key, &mut slot.0) {
            Some(value) => self.decode(memory, value),
            None => None,
        }
    }

    /// The object a reference leads to.
    pub fn object<M: Memory>(&self, memory: &M, reference: ObjectReference) -> (r: Option<Object>)
        requires
            self@.wf(),
        ensures
            r == (match self@.table_of_atom(memory, reference.0) {
                Some(t) => Some(Object(t)),
                None => None,
            }),
    {
        match self.layout.table_of(memory, reference.0) {
            Some(t) => Some(Object(t)),
            None => None,
        }
    }

    /// The object a reference leads to, which must own `key`. The heap learns
    /// on the way where a ScriptObject keeps its table.
    pub fn object_owning<M: Memory>(&mut self, memory: &M, reference: ObjectReference, key: &str) -> (r:
        Option<Object>)
        requires
            old(self)@.wf(),
        ensures
            final(self)@.wf(),
            final(self)@ == (Layout { so_tbl: final(self)@.so_tbl, ..old(self)@ }),
            final(self)@.so_tbl == old(self)@.derived_so_tbl(memory, reference.0, key@).1,
            r == (match old(self)@.derived_so_tbl(memory, reference.0, key@).0 {
                Some(t) => Some(Object(t)),
                None => None,
            }),
    {
        match self.layout.derive_so_tbl(memory, reference.0, key) {
            Some(t) => Some(Object(t)),
            None => None,
        }
    }

    /// Is this string exactly `text`?
    pub fn string_is<M: Memory>(&self, memory: &M, string: StringReference, text: &str) -> (b: bool)
        requires
            self@.wf(),
        ensures
            b == self@.is_string(memory, string.0, text@),
    {
        self.layout.string_eq(memory, string.0, text)
    }

    /// Is this still an object of the heap: does it carry the table vtable?
    /// `None` when it cannot be read.
    pub fn is_object<M: Memory>(&self, memory: &M, object: Object) -> (r: Option<bool>)
        ensures
            r == (match qword_at(memory, object.0 as int) {
                Some(vt) => Some(vt == self@.tbl_vt),
                None => None,
            }),
    {
        match read_u64(memory, object.0) {
            Some(vtable) => Some(vtable == self.layout.tbl_vt),
            None => None,
        }
    }

    /// The name of the layout this heap is read with, for the log.
    pub fn layout_name(&self) -> (name: &'static str)
        ensures
            name == self@.profile.name,
    {
        self.layout.profile.name
    }
}

// -- the binary ---------------------------------------------------------------

/// Layout measured on `pepflashplayer.dll` win32-x64 32.0.0.465, as offsets
/// relative to the module.
///
/// This is not a hard coded address, it is a **seed**. It is checked exactly
/// like a derived value -- the string is read back and compared -- and dropped
/// without noise if the binary differs, in which case the full search takes
/// over.
pub fn measured() -> (l: Layout)
    ensures
        l == measured_layout(),
        l.wf(),
{
    Layout {
        module: (0, 0),
        str_vt: 0x1756db8,
        str_buf: 0x08,
        str_len: 0x30,
        tbl_vt: 0x174a460,
        profile: windows_x64(),
        so_tbl: 0x30,
    }
}

/// The measured layout, with the table geometry of Windows x86-64.
pub open spec fn measured_layout() -> Layout {
    Layout {
        module: (0, 0),
        str_vt: 0x1756db8,
        str_buf: 0x08,
        str_len: 0x30,
        tbl_vt: 0x174a460,
        profile: windows_profile(),
        so_tbl: 0x30,
    }
}

/// `a + b`, wrapping at 2^64.
pub open spec fn plus(a: u64, b: u64) -> u64 {
    ((a + b) % 0x1_0000_0000_0000_0000) as u64
}

/// `a - b`, wrapping at 2^64.
pub open spec fn minus(a: u64, b: u64) -> u64 {
    ((a - b + 0x1_0000_0000_0000_0000) % 0x1_0000_0000_0000_0000) as u64
}

/// A layout kept relative to its module, placed at `module`.
pub open spec fn rebased(l: Layout, module: (u64, u64)) -> Layout {
    Layout { str_vt: plus(l.str_vt, module.0), tbl_vt: plus(l.tbl_vt, module.0), module, ..l }
}

/// A layout placed in its module, made relative to it.
pub open spec fn unbased(l: Layout) -> Layout {
    Layout { str_vt: minus(l.str_vt, l.module.0), tbl_vt: minus(l.tbl_vt, l.module.0), ..l }
}

/// The word at `address`, when it can be read.
pub open spec fn word_at<M: Memory>(mem: &M, address: int) -> Option<u16> {
    if address > u64::MAX {
        None
    } else {
        match mem.bytes_at(address, 2) {
            Some(b) => Some(le_u16(b)),
            None => None,
        }
    }
}

/// The doubleword at `address`, when it can be read.
pub open spec fn doubleword_at<M: Memory>(mem: &M, address: int) -> Option<u32> {
    if address > u64::MAX {
        None
    } else {
        match mem.bytes_at(address, 4) {
            Some(b) => Some(le_u32(b)),
            None => None,
        }
    }
}

/// The PE headers of the measured build: the DOS and NT magics, the machine,
/// the time stamp, the optional header magic, the size of the image and the
/// checksum.
pub open spec fn measured_headers<M: Memory>(mem: &M, base: u64) -> bool {
    &&& word_at(mem, base + 0) == Some(0x5a4du16)
    &&& doubleword_at(mem, base + 0x3c) == Some(0x158u32)
    &&& doubleword_at(mem, base + 0x158) == Some(0x4550u32)
    &&& word_at(mem, base + 0x15c) == Some(0x8664u16)
    &&& doubleword_at(mem, base + 0x160) == Some(0x5fbd874bu32)
    &&& word_at(mem, base + 0x170) == Some(0x20bu16)
    &&& doubleword_at(mem, base + 0x1a8) == Some(0x209e000u32)
    &&& doubleword_at(mem, base + 0x1b0) == Some(0x1f7c652u32)
}

/// The first two methods of the String vtable and of the table vtable of the
/// measured build.
pub open spec fn measured_methods<M: Memory>(mem: &M, base: u64) -> bool {
    &&& qword_at(mem, base + 0x1756db8) == Some((base + 0x4391d0) as u64) && base + 0x4391d0
        <= u64::MAX
    &&& qword_at(mem, base + 0x1756dc0) == Some((base + 0x374620) as u64) && base + 0x374620
        <= u64::MAX
    &&& qword_at(mem, base + 0x174a460) == Some((base + 0x39ec60) as u64) && base + 0x39ec60
        <= u64::MAX
    &&& qword_at(mem, base + 0x174a468) == Some((base + 0x3c2e10) as u64) && base + 0x3c2e10
        <= u64::MAX
}

fn word_at_address<M: Memory>(mem: &M, base: u64, offset: u64) -> (r: Option<u16>)
    ensures
        r == word_at(mem, base + offset),
{
    let address = match base.checked_add(offset) {
        Some(a) => a,
        None => {
            return None;
        },
    };
    let mut bytes = [0u8; 2];
    if mem.read_into(address, &mut bytes).is_none() {
        return None;
    }
    assert(bytes@.subrange(0, 2) =~= bytes@);
    Some(u16_at(&bytes, 0))
}

fn doubleword_at_address<M: Memory>(mem: &M, base: u64, offset: u64) -> (r: Option<u32>)
    ensures
        r == doubleword_at(mem, base + offset),
{
    let address = match base.checked_add(offset) {
        Some(a) => a,
        None => {
            return None;
        },
    };
    let mut bytes = [0u8; 4];
    if mem.read_into(address, &mut bytes).is_none() {
        return None;
    }
    assert(bytes@.subrange(0, 4) =~= bytes@);
    Some(u32_at(&bytes, 0))
}

/// Does the vtable slot at `base + slot` point at `base + method`?
fn points_at<M: Memory>(mem: &M, base: u64, slot: u64, method: u64) -> (b: bool)
    ensures
        b == (qword_at(mem, base + slot) == Some((base + method) as u64) && base + method
            <= u64::MAX),
{
    let address = match base.checked_add(slot) {
        Some(a) => a,
        None => {
            return false;
        },
    };
    let target = match base.checked_add(method) {
        Some(t) => t,
        None => {
            return false;
        },
    };
    read_u64(mem, address) == Some(target)
}

/// What we keep about the binary itself, from one plugin process to the next.
///
/// The plugin process comes and goes, but the DLL is always the same one: its
/// vtables sit at the same offset in the module, and only the base changes
/// with ASLR. Keeping them lets us find an interned string in one pass --
/// scanning the String object headers -- instead of two.
///
/// This is about the binary, not about the game. Nothing here can go stale
/// between two games, and everything is checked again at use.
#[derive(Copy, Clone)]
pub struct Binary {
    layout: Option<Layout>,
}

impl View for Binary {
    type V = Option<Layout>;

    /// The layout proven in this binary, relative to its module.
    closed spec fn view(&self) -> Option<Layout> {
        self.layout
    }
}

impl Default for Binary {
    fn default() -> (b: Binary)
        ensures
            b@ is None,
    {
        Binary { layout: None }
    }
}

impl Binary {
    /// A binary whose layout is already proven, as it is after one successful
    /// reading. The search then trusts that layout and never questions it.
    pub fn proven_with(layout: Layout) -> (b: Binary)
        ensures
            b@ == Some(layout),
    {
        Binary { layout: Some(layout) }
    }

    /// A profile already measured, recognised by the PE headers and four
    /// methods. The usual fallback stays active if a single check fails.
    pub fn recognize<M: Memory>(&mut self, mem: &M, module: (u64, u64)) -> (b: bool)
        ensures
            b == (measured_headers(mem, module.0) && measured_methods(mem, module.0)),
            b ==> final(self)@ == Some(measured_layout()),
            !b ==> final(self)@ == old(self)@,
    {
        let base = module.0;
        if word_at_address(mem, base, 0) != Some(0x5a4d) || doubleword_at_address(mem, base, 0x3c)
            != Some(0x158) || doubleword_at_address(mem, base, 0x158) != Some(0x4550)
            || word_at_address(mem, base, 0x15c) != Some(0x8664) || doubleword_at_address(
            mem,
            base,
            0x160,
        ) != Some(0x5fbd874b) || word_at_address(mem, base, 0x170) != Some(0x20b)
            || doubleword_at_address(mem, base, 0x1a8) != Some(0x209e000) || doubleword_at_address(
            mem,
            base,
            0x1b0,
        ) != Some(0x1f7c652) {
            return false;
        }
        if !points_at(mem, base, 0x1756db8, 0x4391d0) || !points_at(mem, base, 0x1756dc0, 0x374620)
            || !points_at(mem, base, 0x174a460, 0x39ec60) || !points_at(
            mem,
            base,
            0x174a468,
            0x3c2e10,
        ) {
            return false;
        }
        let l = measured();
        self.layout = Some(l);
        true
    }

    /// The layout, rebased on the module of this process: the proven one, or
    /// the measured seed.
    pub fn layout(&self, module: (u64, u64)) -> (r: Option<Layout>)
        ensures
            r == Some(
                rebased(
                    match self@ {
                        Some(l) => l,
                        None => measured_layout(),
                    },
                    module,
                ),
            ),
    {
        let mut l = match self.layout {
            Some(l) => l,
            None => measured(),
        };
        l.str_vt = l.str_vt.wrapping_add(module.0);
        l.tbl_vt = l.tbl_vt.wrapping_add(module.0);
        l.module = module;
        Some(l)
    }

    /// Has the layout already read something in this binary?
    ///
    /// While it has not, we must keep the fallback: the seed may not hold for
    /// this version of the player. Once it has, the fallback can learn nothing
    /// more.
    pub fn proven(&self) -> (b: bool)
        ensures
            b == self@ is Some,
    {
        self.layout.is_some()
    }

    /// A layout read a game: keep it, relative to its module.
    pub fn learn(&mut self, layout: &Layout)
        ensures
            final(self)@ == Some(unbased(*layout)),
    {
        let mut l = *layout;
        l.str_vt = layout.str_vt.wrapping_sub(layout.module.0);
        l.tbl_vt = layout.tbl_vt.wrapping_sub(layout.module.0);
        self.layout = Some(l);
    }
}

/// What a binary learns of a layout, it gives back on the same module.
pub proof fn a_learned_layout_comes_back(layout: Layout)
    ensures
        rebased(unbased(layout), layout.module) == layout,
{
    assert(plus(minus(layout.str_vt, layout.module.0), layout.module.0) == layout.str_vt);
    assert(plus(minus(layout.tbl_vt, layout.module.0), layout.module.0) == layout.tbl_vt);
}

// -- the String layout ----------------------------------------------------------

/// The layout candidate `(i, j)` gives a String object with vtable `vt`: the
/// buffer at candidate offset `i`, the length at `8 * j`.
pub open spec fn string_candidate(module: (u64, u64), vt: u64, i: int, j: int) -> Layout {
    Layout {
        module,
        str_vt: vt,
        str_buf: crate::avm1::str_buf_candidate(i),
        str_len: (8 * j) as u64,
        tbl_vt: 0,
        profile: windows_profile(),
        so_tbl: 0,
    }
}

/// The first candidate, from `(i, j)` on in the order buffer offset first,
/// then length offset, that reads `key` back from the String object at `so`.
pub open spec fn string_layout_from<M: Memory>(
    mem: &M,
    module: (u64, u64),
    so: u64,
    vt: u64,
    key: Seq<char>,
    units: u64,
    i: int,
    j: int,
) -> Option<Layout>
    decreases crate::avm1::STR_BUF_CANDIDATES - i, 16 - j,
{
    if i >= crate::avm1::STR_BUF_CANDIDATES || i < 0 {
        None
    } else if j >= 16 {
        string_layout_from(mem, module, so, vt, key, units, i + 1, 1)
    } else if j < 1 {
        None
    } else {
        let l = string_candidate(module, vt, i, j);
        if qword_at(mem, so + 8 * j) == Some(units) && l.is_string(mem, so, key) {
            Some(l)
        } else {
            string_layout_from(mem, module, so, vt, key, units, i, j + 1)
        }
    }
}

/// The String layout that reads `key` back from the String object at `so`.
///
/// Three independent constraints: the leading qword points into the module
/// (it is the vtable), one qword holds the expected length, and the string
/// decoded that way is the one we look for.
pub open spec fn string_layout<M: Memory>(
    mem: &M,
    module: (u64, u64),
    so: u64,
    key: Seq<char>,
    units: u64,
) -> Option<Layout> {
    match qword_at(mem, so as int) {
        Some(vt) => if vt < module.0 || vt >= module.1 {
            None
        } else {
            string_layout_from(mem, module, so, vt, key, units, 0, 1)
        },
        None => None,
    }
}

/// Derives the String layout from the address of one String object.
pub fn string_layout_at<M: Memory>(
    mem: &M,
    module: (u64, u64),
    so: u64,
    key: &str,
    units: u64,
) -> (r: Option<Layout>)
    ensures
        r == string_layout(mem, module, so, key@, units),
        r matches Some(l) ==> l.wf() && l.is_string(mem, so, key@) && l.module == module,
{
    let vt = match read_u64(mem, so) {
        Some(vt) => vt,
        None => {
            return None;
        },
    };
    if vt < module.0 || vt >= module.1 {
        return None;
    }
    let profile = windows_x64();
    let mut i: usize = 0;
    while i < crate::avm1::STR_BUF_CANDIDATES
        invariant
            0 < so < ADDRESS_LIMIT,
            qword_at(mem, so as int) == Some(vt),
            module.0 <= vt < module.1,
            profile == windows_profile(),
            i <= crate::avm1::STR_BUF_CANDIDATES,
            string_layout(mem, module, so, key@, units) == string_layout_from(
                mem,
                module,
                so,
                vt,
                key@,
                units,
                i as int,
                1,
            ),
        decreases crate::avm1::STR_BUF_CANDIDATES - i,
    {
        let buf_off = crate::avm1::str_buf_candidate_at(i);
        let mut j: u64 = 1;
        while j < 16
            invariant
                0 < so < ADDRESS_LIMIT,
                i < crate::avm1::STR_BUF_CANDIDATES,
                buf_off == crate::avm1::str_buf_candidate(i as int),
                profile == windows_profile(),
                1 <= j <= 16,
                string_layout(mem, module, so, key@, units) == string_layout_from(
                    mem,
                    module,
                    so,
                    vt,
                    key@,
                    units,
                    i as int,
                    j as int,
                ),
            decreases 16 - j,
        {
            if read_u64(mem, so + 8 * j) == Some(units) {
                let layout = Layout {
                    module,
                    str_vt: vt,
                    str_buf: buf_off,
                    str_len: 8 * j,
                    tbl_vt: 0,
                    profile,
                    so_tbl: 0,
                };
                assert(layout == string_candidate(module, vt, i as int, j as int));
                if layout.string_eq(mem, so, key) {
                    return Some(layout);
                }
            }
            j = j + 1;
        }
        i = i + 1;
    }
    None
}


// -- the search -------------------------------------------------------------------

/// The UTF-16 bytes of a key, little endian: what its String buffer holds.
pub open spec fn utf16_bytes(units: Seq<u16>) -> Seq<u8>
    decreases units.len(),
{
    if units.len() == 0 {
        Seq::empty()
    } else {
        utf16_bytes(units.drop_last()) + seq![
            (units.last() % 256) as u8,
            (units.last() / 256) as u8,
        ]
    }
}

fn needle_of(units: &Vec<u16>) -> (bytes: Vec<u8>)
    ensures
        bytes@ == utf16_bytes(units@),
{
    let mut bytes: Vec<u8> = Vec::new();
    let mut i: usize = 0;
    while i < units.len()
        invariant
            i <= units@.len(),
            bytes@ == utf16_bytes(units@.subrange(0, i as int)),
        decreases units@.len() - i,
    {
        let u = units[i];
        proof {
            assert(units@.subrange(0, i + 1).drop_last() =~= units@.subrange(0, i as int));
        }
        bytes.push((u % 256) as u8);
        bytes.push((u / 256) as u8);
        i = i + 1;
        proof {
            let before = utf16_bytes(units@.subrange(0, i - 1));
            assert(bytes@ =~= before + seq![(u % 256) as u8, (u / 256) as u8]);
        }
    }
    assert(units@.subrange(0, units@.len() as int) =~= units@);
    bytes
}

/// The length a String object at offset `i` of a block gives itself: taken
/// from the block when it fits there, else read.
pub open spec fn length_at<M: Memory>(mem: &M, seed: Layout, b: u64, bytes: Seq<u8>, i: int) -> Option<
    u64,
> {
    let at = (i + seed.str_len) as usize;
    if at + 8 <= bytes.len() {
        Some(le_u64(bytes.subrange(at as int, bytes.len() as int)))
    } else if b + i + seed.str_len <= u64::MAX {
        qword_at(mem, b + i + seed.str_len)
    } else {
        None
    }
}

/// A String object of the layout `seed`, found by the vtable at its head,
/// that holds `key`, of `units` UTF-16 units.
pub open spec fn string_object_at<M: Memory>(
    mem: &M,
    seed: Layout,
    key: Seq<char>,
    units: u64,
) -> spec_fn(u64, Seq<u8>, int) -> Option<u64> {
    |b: u64, bytes: Seq<u8>, i: int|
        if appears_at(bytes, vstd::bytes::spec_u64_to_le_bytes(seed.str_vt), i) && length_at(
            mem,
            seed,
            b,
            bytes,
            i,
        ) == Some(units) && seed.is_string(mem, (b + i) as u64, key) {
            Some((b + i) as u64)
        } else {
            None
        }
}

/// The String objects of one layout, found by the vtable at their head: the
/// first one, in the order of the sweep, that holds `key`.
///
/// The length is taken from the block already read when it fits there. It
/// rejects almost every String object, and the string itself is only read
/// back for the rare survivors.
///
/// It stops where a pause is due; the sweep keeps where it stands.
fn scan_string_objects_from<M: Memory, L: SearchLog>(
    mem: &M,
    ranges: &[(u64, u64)],
    seed: Layout,
    key: &str,
    units: u64,
    sweep: &mut Sweep,
    cost: &mut Scan,
    log: &mut L,
) -> (r: Progress<u64>)
    requires
        seed.wf(),
        old(sweep).wf(ranges@),
    ensures
        final(sweep).wf(ranges@),
        match r {
            Progress::Found(x) => first_in_sweep(mem, old(sweep).blocks(ranges@), 8, 8, string_object_at(mem, seed, key@, units)) == Some(x) && seed.is_string(mem, x, key@),
            Progress::Exhausted => first_in_sweep(mem, old(sweep).blocks(ranges@), 8, 8, string_object_at(mem, seed, key@, units)) is None,
            Progress::Paused => first_in_sweep(mem, old(sweep).blocks(ranges@), 8, 8, string_object_at(mem, seed, key@, units)) == first_in_sweep(mem, final(sweep).blocks(ranges@), 8, 8, string_object_at(mem, seed, key@, units))
                && 0 <= final(sweep).left(ranges@) < old(sweep).left(ranges@)
                && final(sweep).blocks_read() % crate::scan::CHUNKS_PER_TICK == 0,
        },
{
    let ghost hit = string_object_at(mem, seed, key@, units);
    let ghost answer = first_in_sweep(mem, old(sweep).blocks(ranges@), 8, 8, hit);
    proof {
        sweep.lemma_left(ranges@);
    }
    let pat = vstd::bytes::u64_to_le_bytes(seed.str_vt);
    loop
        invariant
            sweep.wf(ranges@),
            sweep.left(ranges@) >= 0,
            sweep.left(ranges@) <= old(sweep).left(ranges@),
            seed.wf(),
            pat@ == vstd::bytes::spec_u64_to_le_bytes(seed.str_vt),
            pat@.len() == 8,
            hit == string_object_at(mem, seed, key@, units),
            answer == first_in_sweep(mem, old(sweep).blocks(ranges@), 8, 8, hit),
            answer == first_in_sweep(mem, sweep.blocks(ranges@), 8, 8, hit),
        decreases sweep.left(ranges@),
    {
        let ghost before = sweep.blocks(ranges@);
        let (base, n, pause) = match sweep.next_block(ranges) {
            Some(b) => b,
            None => {
                return Progress::Exhausted;
            },
        };
        proof {
            lemma_first_in_sweep_step(mem, before, (base, n, pause), sweep.blocks(ranges@), 8, 8, hit);
        }
        let mut block = vec![0u8; n as usize];
        if cost.read_block(mem, base, block.as_mut_slice(), log) {
            let ghost bytes = block@;
            let mut i: u64 = 0;
            while i + 8 <= n
                invariant
                    sweep.wf(ranges@),
                    block@.len() == n,
                    bytes == block@,
                    0 < n <= crate::scan::CHUNK,
                    base + n <= u64::MAX,
                    i <= n,
                    seed.wf(),
                    pat@ == vstd::bytes::spec_u64_to_le_bytes(seed.str_vt),
                    pat@.len() == 8,
                    hit == string_object_at(mem, seed, key@, units),
                    answer == first_in_sweep(mem, old(sweep).blocks(ranges@), 8, 8, hit),
                    answer == match first_in_block(hit, base, bytes, n as int, 0, 8, 8) {
                        Some(t) => Some(t),
                        None => first_in_sweep(mem, sweep.blocks(ranges@), 8, 8, hit),
                    },
                    first_in_block(hit, base, bytes, n as int, 0, 8, 8) == first_in_block(
                        hit,
                        base,
                        bytes,
                        n as int,
                        i as int,
                        8,
                        8,
                    ),
                decreases n + 8 - i,
            {
                if bytes_match(block.as_slice(), i as usize, pat.as_slice()) {
                    let so = base + i;
                    let len = match crate::memory::u64_at(block.as_slice(), (i + seed.str_len) as usize) {
                        Some(v) => Some(v),
                        None => match so.checked_add(seed.str_len) {
                            Some(at) => read_u64(mem, at),
                            None => None,
                        },
                    };
                    assert(len == length_at(mem, seed, base, bytes, i as int));
                    if len == Some(units) && seed.string_eq(mem, so, key) {
                        assert(hit(base, bytes, i as int) == Some(so));
                        assert(first_in_block(hit, base, bytes, n as int, i as int, 8, 8) == Some(so));
                        return Progress::Found(so);
                    }
                }
                assert(hit(base, bytes, i as int) is None);
                proof {
                    lemma_first_in_block_next(hit, base, bytes, n as int, i as int, 8, 8);
                }
                i = i + 8;
            }
            assert(first_in_block(hit, base, bytes, n as int, i as int, 8, 8) is None);
        }
        if pause {
            return Progress::Paused;
        }
    }
}


/// The String object whose buffer pointer sits at `slot`, at the candidate
/// offset `c` or a later one, that reads `key` back: the layout that reads
/// it, and the object.
pub open spec fn string_owning_slot<M: Memory>(
    mem: &M,
    module: (u64, u64),
    slot: u64,
    key: Seq<char>,
    units: u64,
    c: int,
) -> Option<(Layout, u64)>
    decreases crate::avm1::STR_BUF_CANDIDATES - c,
{
    if c < 0 || c >= crate::avm1::STR_BUF_CANDIDATES {
        None
    } else {
        let off = crate::avm1::str_buf_candidate(c);
        let here = if slot >= off {
            match string_layout(mem, module, (slot - off) as u64, key, units) {
                Some(l) => Some((l, (slot - off) as u64)),
                None => None,
            }
        } else {
            None
        };
        match here {
            Some(f) => Some(f),
            None => string_owning_slot(mem, module, slot, key, units, c + 1),
        }
    }
}

/// A qword of a block that is one of `buffers` and sits in a String object
/// that reads `key` back.
pub open spec fn referenced_string<M: Memory>(
    mem: &M,
    module: (u64, u64),
    buffers: Seq<u64>,
    key: Seq<char>,
    units: u64,
) -> spec_fn(u64, Seq<u8>, int) -> Option<(Layout, u64)> {
    |b: u64, bytes: Seq<u8>, i: int|
        if buffers.contains(qword_in(bytes, i)) {
            string_owning_slot(mem, module, (b + i) as u64, key, units, 0)
        } else {
            None
        }
}

/// The String object that a buffer of `key` belongs to, found by the
/// pointers to the buffers: the first qword, in the order of the sweep, that
/// is one of `buffers` and sits at a candidate offset of a String object
/// that reads `key` back. One pass for all the candidates at once.
///
/// It stops where a pause is due; the sweep keeps where it stands.
fn scan_string_references_from<M: Memory, L: SearchLog>(
    mem: &M,
    module: (u64, u64),
    ranges: &[(u64, u64)],
    buffers: &[u64],
    key: &str,
    units: u64,
    sweep: &mut Sweep,
    cost: &mut Scan,
    log: &mut L,
) -> (r: Progress<(Layout, u64)>)
    requires
        old(sweep).wf(ranges@),
    ensures
        final(sweep).wf(ranges@),
        match r {
            Progress::Found(x) => first_in_sweep(mem, old(sweep).blocks(ranges@), 8, 8, referenced_string(mem, module, buffers@, key@, units)) == Some(x) && x.0.wf() && x.0.is_string(mem, x.1, key@) && x.0.module == module && string_layout(mem, module, x.1, key@, units) == Some(x.0),
            Progress::Exhausted => first_in_sweep(mem, old(sweep).blocks(ranges@), 8, 8, referenced_string(mem, module, buffers@, key@, units)) is None,
            Progress::Paused => first_in_sweep(mem, old(sweep).blocks(ranges@), 8, 8, referenced_string(mem, module, buffers@, key@, units)) == first_in_sweep(mem, final(sweep).blocks(ranges@), 8, 8, referenced_string(mem, module, buffers@, key@, units))
                && 0 <= final(sweep).left(ranges@) < old(sweep).left(ranges@)
                && final(sweep).blocks_read() % crate::scan::CHUNKS_PER_TICK == 0,
        },
{
    let ghost hit = referenced_string(mem, module, buffers@, key@, units);
    let ghost answer = first_in_sweep(mem, old(sweep).blocks(ranges@), 8, 8, hit);
    proof {
        sweep.lemma_left(ranges@);
    }
    loop
        invariant
            sweep.wf(ranges@),
            sweep.left(ranges@) >= 0,
            sweep.left(ranges@) <= old(sweep).left(ranges@),
            hit == referenced_string(mem, module, buffers@, key@, units),
            answer == first_in_sweep(mem, old(sweep).blocks(ranges@), 8, 8, hit),
            answer == first_in_sweep(mem, sweep.blocks(ranges@), 8, 8, hit),
        decreases sweep.left(ranges@),
    {
        let ghost before = sweep.blocks(ranges@);
        let (base, n, pause) = match sweep.next_block(ranges) {
            Some(b) => b,
            None => {
                return Progress::Exhausted;
            },
        };
        proof {
            lemma_first_in_sweep_step(mem, before, (base, n, pause), sweep.blocks(ranges@), 8, 8, hit);
        }
        let mut block = vec![0u8; n as usize];
        if cost.read_block(mem, base, block.as_mut_slice(), log) {
            let ghost bytes = block@;
            let mut i: u64 = 0;
            while i + 8 <= n
                invariant
                    sweep.wf(ranges@),
                    block@.len() == n,
                    bytes == block@,
                    0 < n <= crate::scan::CHUNK,
                    base + n <= u64::MAX,
                    i <= n,
                    hit == referenced_string(mem, module, buffers@, key@, units),
                    answer == first_in_sweep(mem, old(sweep).blocks(ranges@), 8, 8, hit),
                    answer == match first_in_block(hit, base, bytes, n as int, 0, 8, 8) {
                        Some(t) => Some(t),
                        None => first_in_sweep(mem, sweep.blocks(ranges@), 8, 8, hit),
                    },
                    first_in_block(hit, base, bytes, n as int, 0, 8, 8) == first_in_block(
                        hit,
                        base,
                        bytes,
                        n as int,
                        i as int,
                        8,
                        8,
                    ),
                decreases n + 8 - i,
            {
                let v = match crate::memory::u64_at(block.as_slice(), i as usize) {
                    Some(v) => v,
                    None => 0,
                };
                assert(v == qword_in(bytes, i as int));
                if one_of(buffers, v) {
                    let slot = base + i;
                    let mut c: usize = 0;
                    while c < crate::avm1::STR_BUF_CANDIDATES
                        invariant
                            sweep.wf(ranges@),
                            c <= crate::avm1::STR_BUF_CANDIDATES,
                            string_owning_slot(mem, module, slot, key@, units, 0)
                                == string_owning_slot(mem, module, slot, key@, units, c as int),
                            slot == base + i,
                            i + 8 <= n,
                            buffers@.contains(qword_in(bytes, i as int)),
                            hit == referenced_string(mem, module, buffers@, key@, units),
                            answer == first_in_sweep(mem, old(sweep).blocks(ranges@), 8, 8, hit),
                            answer == match first_in_block(hit, base, bytes, n as int, 0, 8, 8) {
                                Some(t) => Some(t),
                                None => first_in_sweep(mem, sweep.blocks(ranges@), 8, 8, hit),
                            },
                            first_in_block(hit, base, bytes, n as int, 0, 8, 8) == first_in_block(
                                hit,
                                base,
                                bytes,
                                n as int,
                                i as int,
                                8,
                                8,
                            ),
                        decreases crate::avm1::STR_BUF_CANDIDATES - c,
                    {
                        let off = crate::avm1::str_buf_candidate_at(c);
                        if slot >= off {
                            let so = slot - off;
                            if let Some(layout) = string_layout_at(mem, module, so, key, units) {
                                assert(string_owning_slot(mem, module, slot, key@, units, c as int)
                                    == Some((layout, so)));
                                assert(hit(base, bytes, i as int) == Some((layout, so)));
                                assert(first_in_block(hit, base, bytes, n as int, i as int, 8, 8)
                                    == Some((layout, so)));
                                return Progress::Found((layout, so));
                            }
                        }
                        c = c + 1;
                    }
                }
                assert(hit(base, bytes, i as int) is None);
                proof {
                    lemma_first_in_block_next(hit, base, bytes, n as int, i as int, 8, 8);
                }
                i = i + 8;
            }
            assert(first_in_block(hit, base, bytes, n as int, i as int, 8, 8) is None);
        }
        if pause {
            return Progress::Paused;
        }
    }
}


/// The cached String object of `key`, while it still reads `key`, with the
/// layout that reads it.
pub open spec fn cached_string<M: Memory>(
    mem: &M,
    module: (u64, u64),
    key: Seq<char>,
    cache: Option<u64>,
) -> Option<(Layout, u64)> {
    match cache {
        Some(so) => match string_layout(mem, module, so, key, utf16_of(key).len() as u64) {
            Some(l) => Some((l, so)),
            None => None,
        },
        None => None,
    }
}

/// What the search for the interned String object of `key` finds, and what
/// the cache holds after it: the cached object while it still reads `key`;
/// else the first String object of the known layout, in the order of the
/// sweep; else, with no layout proven yet, the first String object that
/// points at one of the first eight copies of the key's bytes.
pub open spec fn string_found<M: Memory>(
    mem: &M,
    module: (u64, u64),
    ranges: Seq<(u64, u64)>,
    key: Seq<char>,
    cache: Option<u64>,
    binary: Option<Layout>,
) -> (Option<(Layout, u64)>, Option<u64>) {
    let units = utf16_of(key).len() as u64;
    let cached = cached_string(mem, module, key, cache);
    if cached is Some {
        (cached, cache)
    } else {
        let seed = rebased(
            match binary {
                Some(l) => l,
                None => measured_layout(),
            },
            module,
        );
        match first_in_sweep(mem, sweep_blocks(ranges), 8, 8, string_object_at(mem, seed, key, units)) {
            Some(so) => (Some((seed, so)), Some(so)),
            None => if binary is Some {
                (None, None)
            } else {
                let needle = utf16_bytes(utf16_of(key));
                let buffers = at_most(
                    all_in_sweep(mem, sweep_blocks(ranges), 2, needle.len() as int, pattern_at(needle)),
                    8,
                );
                if buffers.len() == 0 {
                    (None, None)
                } else {
                    match first_in_sweep(
                        mem,
                        sweep_blocks(ranges),
                        8,
                        8,
                        referenced_string(mem, module, buffers, key, units),
                    ) {
                        Some((l, so)) => (Some((l, so)), Some(so)),
                        None => (None, None),
                    }
                }
            },
        }
    }
}

/// Finds the interned String object of a key, and the String layout with it.
///
/// The cache saves two full scans per attempt: these objects come from the
/// constant pool of the SWF, so they live as long as the plugin. It is checked
/// again by decoding the string, never assumed valid.
///
/// With a known vtable, one pass over the object headers is enough. A proven
/// layout that finds nothing answers nothing: the string does not exist yet.
/// Otherwise the fallback makes two passes: the bytes of the key first, then
/// one single pass for all the candidates at once.
///
/// This is a `Finding` run to its end: where a pause is due, the log hears
/// of it and the search goes on.
pub fn find_string<M: Memory, L: SearchLog>(
    mem: &M,
    module: (u64, u64),
    ranges: &[(u64, u64)],
    key: &str,
    cache: &mut Option<u64>,
    binary: &Binary,
    cost: &mut Scan,
    log: &mut L,
) -> (r: Option<(Layout, u64)>)
    requires
        binary@ matches Some(l) ==> l.wf(),
    ensures
        (r, *final(cache)) == string_found(mem, module, ranges@, key@, *old(cache), binary@),
        r matches Some((l, so)) ==> l.wf() && l.is_string(mem, so, key@) && l.module == module,
{
    let mut f = match Finding::begin(mem, module, key, cache, binary, cost, log) {
        Ok(found) => {
            return Some(found);
        },
        Err(f) => f,
    };
    assert(f.wf(module, ranges@, key@));
    let ghost answer = f.rest(mem, module, ranges@, key@);
    loop
        invariant
            f.wf(module, ranges@, key@),
            f.rest(mem, module, ranges@, key@) == answer,
            string_found(mem, module, ranges@, key@, *old(cache), binary@) == (
                answer,
                string_cache_of(answer),
            ),
        decreases f.passes_left(), f.sweep_left(ranges@),
    {
        match f.advance(mem, module, ranges, key, cost, log) {
            Progress::Found(found) => {
                *cache = match found {
                    Some((_, so)) => Some(so),
                    None => None,
                };
                return found;
            },
            Progress::Exhausted => {
                // `advance` always answers, or pauses.
                return None;
            },
            Progress::Paused => {
                cost.paused(log);
            },
        }
    }
}


/// What the cache of a string holds after a search that scanned: the object
/// it found, if any.
pub open spec fn string_cache_of(found: Option<(Layout, u64)>) -> Option<u64> {
    match found {
        Some((_, so)) => Some(so),
        None => None,
    }
}

/// What the pass over the references finds for these buffers of the key:
/// nothing when there is none.
pub open spec fn string_referenced<M: Memory>(
    mem: &M,
    module: (u64, u64),
    ranges: Seq<(u64, u64)>,
    key: Seq<char>,
    buffers: Seq<u64>,
) -> Option<(Layout, u64)> {
    if buffers.len() == 0 {
        None
    } else {
        first_in_sweep(
            mem,
            sweep_blocks(ranges),
            8,
            8,
            referenced_string(mem, module, buffers, key, utf16_of(key).len() as u64),
        )
    }
}

/// The copies of the bytes of `key` in these blocks.
pub open spec fn key_bytes_in<M: Memory>(
    mem: &M,
    blocks: Seq<(u64, u64, bool)>,
    key: Seq<char>,
) -> Seq<u64> {
    let needle = utf16_bytes(utf16_of(key));
    all_in_sweep(mem, blocks, 2, needle.len() as int, pattern_at(needle))
}

/// The pass a search for a String object is in.
pub enum Pass {
    /// Over the headers of the String objects of the seed layout.
    Objects,
    /// Over the bytes of the key, for the buffers that hold them.
    Bytes,
    /// Over the pointers to those buffers.
    References,
}

/// A search for the interned String object of a key that stops when a
/// pause is due, and goes on from there at the next call.
pub struct Finding {
    pass: Pass,
    seed: Layout,
    proven: bool,
    units: u64,
    needle: Vec<u8>,
    buffers: Vec<u64>,
    sweep: Sweep,
}

impl Finding {
    /// The search is sound: its sweep in the ranges, its seed a layout of
    /// this module, and the buffers it holds copies of the key in the ranges.
    pub closed spec fn wf(self, module: (u64, u64), ranges: Seq<(u64, u64)>, key: Seq<char>) -> bool {
        &&& self.sweep.wf(ranges)
        &&& self.seed.wf()
        &&& self.seed.module == module
        &&& self.units == utf16_of(key).len() as u64
        &&& self.needle@ == utf16_bytes(utf16_of(key))
        &&& self.pass is Bytes ==> self.buffers@.len() < 8
        &&& forall|k: int|
            0 <= k < self.buffers@.len() ==> in_ranges(
                ranges,
                #[trigger] self.buffers@[k] as int,
                self.needle@.len() as int,
            )
    }

    /// What the search finds from where it stands.
    pub closed spec fn rest<M: Memory>(
        self,
        mem: &M,
        module: (u64, u64),
        ranges: Seq<(u64, u64)>,
        key: Seq<char>,
    ) -> Option<(Layout, u64)> {
        match self.pass {
            Pass::Objects => match first_in_sweep(
                mem,
                self.sweep.blocks(ranges),
                8,
                8,
                string_object_at(mem, self.seed, key, self.units),
            ) {
                Some(so) => Some((self.seed, so)),
                None => if self.proven {
                    None
                } else {
                    string_referenced(
                        mem,
                        module,
                        ranges,
                        key,
                        at_most(key_bytes_in(mem, sweep_blocks(ranges), key), 8),
                    )
                },
            },
            Pass::Bytes => string_referenced(
                mem,
                module,
                ranges,
                key,
                at_most(self.buffers@ + key_bytes_in(mem, self.sweep.blocks(ranges), key), 8),
            ),
            Pass::References => first_in_sweep(
                mem,
                self.sweep.blocks(ranges),
                8,
                8,
                referenced_string(mem, module, self.buffers@, key, self.units),
            ),
        }
    }

    /// How many blocks this pass has read.
    pub closed spec fn blocks_read(self) -> u64 {
        self.sweep.blocks_read()
    }

    /// What is left to sweep in this pass.
    pub closed spec fn sweep_left(self, ranges: Seq<(u64, u64)>) -> int {
        self.sweep.left(ranges)
    }

    /// How many passes are left after this one.
    pub closed spec fn passes_left(self) -> int {
        match self.pass {
            Pass::Objects => 2,
            Pass::Bytes => 1,
            Pass::References => 0,
        }
    }

    /// Looks for the String object of `key`: in the cache first, where it
    /// is checked again by decoding the string; else a search that starts
    /// with the headers of the String objects of the known layout.
    pub fn begin<M: Memory, L: SearchLog>(
        mem: &M,
        module: (u64, u64),
        key: &str,
        cache: &mut Option<u64>,
        binary: &Binary,
        cost: &mut Scan,
        log: &mut L,
    ) -> (r: Result<(Layout, u64), Finding>)
        requires
            binary@ matches Some(l) ==> l.wf(),
        ensures
            match r {
                Ok(found) => cached_string(mem, module, key@, *old(cache)) == Some(found)
                    && *final(cache) == *old(cache) && found.0.wf() && found.0.is_string(mem, found.1, key@)
                    && found.0.module == module,
                Err(f) => cached_string(mem, module, key@, *old(cache)) is None && *final(cache) is None
                    && forall|ranges: Seq<(u64, u64)>| #[trigger] f.wf(module, ranges, key@)
                    && string_found(mem, module, ranges, key@, *old(cache), binary@) == (
                        f.rest(mem, module, ranges, key@),
                        string_cache_of(f.rest(mem, module, ranges, key@)),
                    ),
            },
    {
        let key_units = utf16_units(key);
        let units = key_units.len() as u64;
        log.string_search(key, binary.proven(), cache.is_some());
        if let Some(so) = *cache {
            if let Some(layout) = string_layout_at(mem, module, so, key, units) {
                return Ok((layout, so));
            }
            *cache = None;
        }
        let seed = binary.layout(module).unwrap();
        cost.stage("string_seed", log);
        let f = Finding {
            pass: Pass::Objects,
            seed,
            proven: binary.proven(),
            units,
            needle: needle_of(&key_units),
            buffers: Vec::new(),
            sweep: Sweep::new(),
        };
        assert forall|ranges: Seq<(u64, u64)>| #[trigger] f.wf(module, ranges, key@)
            && string_found(mem, module, ranges, key@, *old(cache), binary@) == (
            f.rest(mem, module, ranges, key@),
            string_cache_of(f.rest(mem, module, ranges, key@)),
        ) by {
            assert(f.sweep.blocks(ranges) == sweep_blocks(ranges));
        }
        Err(f)
    }

    /// Goes on with the search until it ends or a pause is due. The passes
    /// follow one another without a pause between them.
    pub fn advance<M: Memory, L: SearchLog>(
        &mut self,
        mem: &M,
        module: (u64, u64),
        ranges: &[(u64, u64)],
        key: &str,
        cost: &mut Scan,
        log: &mut L,
    ) -> (r: Progress<Option<(Layout, u64)>>)
        requires
            old(self).wf(module, ranges@, key@),
        ensures
            match r {
                Progress::Found(found) => found == old(self).rest(mem, module, ranges@, key@) && (
                found matches Some((l, so)) ==> l.wf() && l.is_string(mem, so, key@) && l.module
                    == module),
                Progress::Exhausted => false,
                Progress::Paused => final(self).wf(module, ranges@, key@) && final(self).rest(
                    mem,
                    module,
                    ranges@,
                    key@,
                ) == old(self).rest(mem, module, ranges@, key@) && 0 <= final(self).passes_left()
                    && 0 <= final(self).sweep_left(ranges@) && final(self).blocks_read()
                    % crate::scan::CHUNKS_PER_TICK == 0 && (
                final(self).passes_left() < old(self).passes_left() || (final(self).passes_left()
                    == old(self).passes_left() && 0 <= final(self).sweep_left(ranges@) < old(
                    self,
                ).sweep_left(ranges@))),
            },
        decreases old(self).passes_left(),
    {
        match self.pass {
            Pass::Objects => {
                match scan_string_objects_from(
                    mem,
                    ranges,
                    self.seed,
                    key,
                    self.units,
                    &mut self.sweep,
                    cost,
                    log,
                ) {
                    Progress::Found(so) => Progress::Found(Some((self.seed, so))),
                    Progress::Paused => Progress::Paused,
                    Progress::Exhausted => {
                        if self.proven {
                            return Progress::Found(None);
                        }
                        cost.stage("string_bytes", log);
                        self.pass = Pass::Bytes;
                        self.sweep = Sweep::new();
                        self.buffers = Vec::new();
                        assert(self.sweep.blocks(ranges@) == sweep_blocks(ranges@));
                        assert(self.buffers@ + key_bytes_in(mem, sweep_blocks(ranges@), key@)
                            =~= key_bytes_in(mem, sweep_blocks(ranges@), key@));
                        self.advance(mem, module, ranges, key, cost, log)
                    },
                }
            },
            Pass::Bytes => {
                match scan_bytes_from(
                    mem,
                    ranges,
                    self.needle.as_slice(),
                    2,
                    8,
                    &mut self.buffers,
                    &mut self.sweep,
                    cost,
                    log,
                ) {
                    Progress::Paused => Progress::Paused,
                    _ => {
                        if self.buffers.len() == 0 {
                            return Progress::Found(None);
                        }
                        cost.stage("string_references", log);
                        self.pass = Pass::References;
                        self.sweep = Sweep::new();
                        assert(self.sweep.blocks(ranges@) == sweep_blocks(ranges@));
                        self.advance(mem, module, ranges, key, cost, log)
                    },
                }
            },
            Pass::References => {
                match scan_string_references_from(
                    mem,
                    module,
                    ranges,
                    self.buffers.as_slice(),
                    key,
                    self.units,
                    &mut self.sweep,
                    cost,
                    log,
                ) {
                    Progress::Found(x) => Progress::Found(Some(x)),
                    Progress::Exhausted => Progress::Found(None),
                    Progress::Paused => Progress::Paused,
                }
            },
        }
    }
}

} // verus!
