//! The heap of Ruffle 0.6.0, as the Hammerfest strategy asks for it.
//!
//! Ruffle keeps an AVM1 object as a map of entries. Each entry holds a value,
//! a pointer to its key, and the hash of that key. The hash can be computed
//! beforehand from the obfuscated name, so the search starts from it.
use vstd::prelude::*;

use crate::heap::{Number, Object, ObjectReference, Slot, StringReference, Value};
use crate::memory::{le_u64, qword_at, read_u64, u64_at, Memory};
use crate::scan::{
    all_in_block,
    all_in_sweep,
    first_in_block,
    first_in_sweep,
    lemma_first_in_block_next,
    lemma_first_in_sweep_step,
    qword_in,
    sweep_blocks,
    Scan,
    SearchLog,
    Sweep,
};
use crate::text::{utf16_of, utf16_of_char, utf16_units};

verus! {

pub const LAYOUT_NAME: &'static str = "ruffle-0.6.0";

/// A collected value is preceded by the vtable of its type. Its low bits are
/// flags of the collector.
pub const GC_VTABLE: u64 = 0x08;
pub const GC_FLAGS: u64 = 0xF;
/// What the vtable of an AVM1 object says of it: its alignment, its size.
pub const OBJECT_ALIGNMENT: u64 = 8;
pub const OBJECT_SIZE: u64 = 160;

/// The map of an object: the capacity, the pointer and the length of its
/// entries, one after the other.
pub const ENTRIES: u64 = 0x08;
pub const ENTRIES_POINTER: u64 = 0x10;
pub const ENTRY_SIZE: u64 = 56;
pub const ENTRY_KEY: usize = 0x28;
pub const ENTRY_HASH: usize = 0x30;
/// More entries than any Hammerfest object holds. A larger length is not a
/// map.
pub const MAX_ENTRIES: u64 = 4096;

pub const TAG_UNDEFINED: u8 = 0;
pub const TAG_NULL: u8 = 1;
pub const TAG_BOOL: u8 = 2;
pub const TAG_NUMBER: u8 = 3;
pub const TAG_STRING: u8 = 4;
pub const TAG_OBJECT: u8 = 5;
pub const TAG_MOVIE_CLIP: u8 = 6;
pub const VALUE_BOOL: usize = 0x01;
pub const VALUE_PAYLOAD: usize = 0x08;

/// A string: the pointer to its units, then its length, whose top bit says
/// the units are UTF-16 and not Latin-1.
pub const STRING_META: usize = 0x10;
pub const WIDE: u32 = 0x8000_0000;
/// Longer than any key or world name.
pub const MAX_STRING: usize = 64;

pub const FNV_OFFSET: u64 = 0xcbf2_9ce4_8422_2325;
pub const FNV_PRIME: u64 = 0x0000_0100_0000_01b3;

// -- the hash of a key -----------------------------------------------------------

/// `swf_to_lowercase`, for the keys the reader asks for: they are ASCII.
pub open spec fn lower(unit: u16) -> u16 {
    if 0x41 <= unit <= 0x5a {
        (unit + 0x20) as u16
    } else {
        unit
    }
}

/// The bytes FNV-1a hashes for these units: each unit lowered and written as
/// a little-endian u16.
pub open spec fn hashed_bytes(units: Seq<u16>) -> Seq<u8>
    decreases units.len(),
{
    if units.len() == 0 {
        Seq::empty()
    } else {
        let u = lower(units.last());
        hashed_bytes(units.drop_last()) + seq![(u % 256) as u8, (u / 256) as u8]
    }
}

/// FNV-1a 64, from `hash`, over `bytes`.
pub open spec fn fnv(hash: u64, bytes: Seq<u8>) -> u64
    decreases bytes.len(),
{
    if bytes.len() == 0 {
        hash
    } else {
        (fnv(hash, bytes.drop_last()) ^ (bytes.last() as u64)).wrapping_mul(FNV_PRIME)
    }
}

/// The hash Ruffle keeps beside a key: FNV-1a 64 over each unit, lowered and
/// written as a u16, then one byte 0xff (`property_map.rs:198-201` in Ruffle).
pub open spec fn hash_of(key: Seq<char>) -> u64 {
    fnv(FNV_OFFSET, hashed_bytes(utf16_of(key)).push(0xff))
}

fn lowered(unit: u16) -> (l: u16)
    ensures
        l == lower(unit),
{
    if unit >= 0x41 && unit <= 0x5a {
        unit + 0x20
    } else {
        unit
    }
}

/// One more byte through FNV-1a.
proof fn lemma_fnv_push(hash: u64, bytes: Seq<u8>, b: u8)
    ensures
        fnv(hash, bytes.push(b)) == (fnv(hash, bytes) ^ (b as u64)).wrapping_mul(FNV_PRIME),
{
    assert(bytes.push(b).drop_last() =~= bytes);
}

/// One more unit: two more bytes.
proof fn lemma_hashed_step(units: Seq<u16>, i: int)
    requires
        0 <= i < units.len(),
    ensures
        hashed_bytes(units.subrange(0, i + 1)) == hashed_bytes(units.subrange(0, i)).push(
            (lower(units[i]) % 256) as u8,
        ).push((lower(units[i]) / 256) as u8),
{
    let next = units.subrange(0, i + 1);
    assert(next.drop_last() =~= units.subrange(0, i));
    assert(next.last() == units[i]);
    let before = hashed_bytes(units.subrange(0, i));
    let u = lower(units[i]);
    assert(before + seq![(u % 256) as u8, (u / 256) as u8] =~= before.push((u % 256) as u8).push(
        (u / 256) as u8,
    ));
}

/// The hash Ruffle keeps beside a key.
pub fn key_hash(key: &str) -> (h: u64)
    ensures
        h == hash_of(key@),
{
    let units = utf16_units(key);
    let mut hash: u64 = FNV_OFFSET;
    let mut i: usize = 0;
    while i < units.len()
        invariant
            units@ == utf16_of(key@),
            i <= units@.len(),
            hash == fnv(FNV_OFFSET, hashed_bytes(units@.subrange(0, i as int))),
        decreases units@.len() - i,
    {
        let u = lowered(units[i]);
        let lo = (u % 256) as u8;
        let hi = (u / 256) as u8;
        let ghost before = hashed_bytes(units@.subrange(0, i as int));
        proof {
            lemma_hashed_step(units@, i as int);
            lemma_fnv_push(FNV_OFFSET, before, lo);
            lemma_fnv_push(FNV_OFFSET, before.push(lo), hi);
        }
        hash = (hash ^ lo as u64).wrapping_mul(FNV_PRIME);
        hash = (hash ^ hi as u64).wrapping_mul(FNV_PRIME);
        i = i + 1;
    }
    proof {
        assert(units@.subrange(0, units@.len() as int) =~= units@);
        lemma_fnv_push(FNV_OFFSET, hashed_bytes(units@), 0xff);
    }
    (hash ^ 0xff).wrapping_mul(FNV_PRIME)
}

/// A character with `A` to `Z` lowered, as `char::to_ascii_lowercase` does.
pub open spec fn ascii_lower(c: char) -> char {
    if 'A' <= c <= 'Z' {
        ((c as u32) + 0x20) as char
    } else {
        c
    }
}

/// A text with `A` to `Z` lowered, as `str::to_ascii_lowercase` does.
pub open spec fn ascii_lowercase(key: Seq<char>) -> Seq<char> {
    key.map_values(|c: char| ascii_lower(c))
}

proof fn lemma_hashed_concat(a: Seq<u16>, b: Seq<u16>)
    ensures
        hashed_bytes(a + b) == hashed_bytes(a) + hashed_bytes(b),
    decreases b.len(),
{
    if b.len() == 0 {
        assert(a + b =~= a);
        assert(hashed_bytes(a) + hashed_bytes(b) =~= hashed_bytes(a));
    } else {
        lemma_hashed_concat(a, b.drop_last());
        assert((a + b).drop_last() =~= a + b.drop_last());
        assert((a + b).last() == b.last());
        let u = lower(b.last());
        assert(hashed_bytes(a) + hashed_bytes(b) =~= hashed_bytes(a) + hashed_bytes(b.drop_last())
            + seq![(u % 256) as u8, (u / 256) as u8]);
    }
}

proof fn lemma_hashed_lowercase(key: Seq<char>)
    ensures
        hashed_bytes(utf16_of(ascii_lowercase(key))) == hashed_bytes(utf16_of(key)),
    decreases key.len(),
{
    if key.len() > 0 {
        let low = ascii_lowercase(key);
        assert(low.drop_last() =~= ascii_lowercase(key.drop_last()));
        assert(low.last() == ascii_lower(key.last()));
        lemma_hashed_lowercase(key.drop_last());
        lemma_hashed_concat(utf16_of(low.drop_last()), utf16_of_char(low.last()));
        lemma_hashed_concat(utf16_of(key.drop_last()), utf16_of_char(key.last()));
        let c = key.last();
        if 'A' <= c <= 'Z' {
            let d = ascii_lower(c);
            assert(d as u32 == c as u32 + 0x20);
            assert(utf16_of_char(c) == seq![(c as u32) as u16]);
            assert(utf16_of_char(d) == seq![(d as u32) as u16]);
            assert(utf16_of_char(c).drop_last() =~= Seq::<u16>::empty());
            assert(utf16_of_char(d).drop_last() =~= Seq::<u16>::empty());
            assert(hashed_bytes(utf16_of_char(d)) == hashed_bytes(utf16_of_char(c)));
        }
    }
}

/// The hash of a key does not tell its case apart: Ruffle lowers each unit
/// before it hashes it, so a key and its ASCII lower case hash alike.
pub proof fn a_key_hashes_as_its_lower_case(key: Seq<char>)
    ensures
        hash_of(ascii_lowercase(key)) == hash_of(key),
{
    lemma_hashed_lowercase(key);
}

// -- the heap ----------------------------------------------------------------

/// The map of the object at `object`: where its entries are, and how many.
pub open spec fn entries_of<M: Memory>(mem: &M, object: u64) -> Option<(u64, u64)> {
    if object + ENTRIES > u64::MAX {
        None
    } else {
        match mem.bytes_at(object + ENTRIES, 24) {
            None => None,
            Some(map) => {
                let capacity = le_u64(map);
                let pointer = le_u64(map.subrange(8, 24));
                let length = le_u64(map.subrange(16, 24));
                if length <= capacity && length <= MAX_ENTRIES {
                    Some((pointer, length))
                } else {
                    None
                }
            },
        }
    }
}

/// Does this entry hold the hash of `key`?
pub open spec fn answers(entry: Seq<u8>, key: Seq<char>) -> bool {
    entry.len() >= ENTRY_HASH + 8 && le_u64(entry.subrange(ENTRY_HASH as int, entry.len() as int))
        == hash_of(key)
}

/// The value an entry holds.
pub open spec fn decoded(entry: Seq<u8>) -> Option<Value> {
    if entry.len() < VALUE_PAYLOAD + 8 {
        None
    } else {
        let payload = le_u64(entry.subrange(VALUE_PAYLOAD as int, entry.len() as int));
        let tag = entry[0];
        if tag == TAG_UNDEFINED {
            Some(Value::Undefined)
        } else if tag == TAG_NULL {
            Some(Value::Null)
        } else if tag == TAG_BOOL {
            Some(Value::Bool(entry[VALUE_BOOL as int] != 0))
        } else if tag == TAG_NUMBER {
            Some(Value::Number(Number::Double(payload)))
        } else if tag == TAG_STRING {
            Some(Value::String(StringReference(payload)))
        } else if tag == TAG_OBJECT {
            Some(Value::Object(ObjectReference(payload)))
        } else if tag == TAG_MOVIE_CLIP {
            Some(Value::Other)
        } else {
            None
        }
    }
}

/// Entry `i` of `all`, the entries of a map read at once.
pub open spec fn entry_of(all: Seq<u8>, i: int) -> Seq<u8> {
    all.subrange(i * ENTRY_SIZE, (i + 1) * ENTRY_SIZE)
}

/// The entry the slot hints at, when it is one of the map's and can be read.
pub open spec fn hinted_entry<M: Memory>(mem: &M, entries: u64, length: u64, slot: u64) -> Option<
    Seq<u8>,
> {
    if slot < length && entries + slot * ENTRY_SIZE <= u64::MAX {
        mem.bytes_at(entries + slot * ENTRY_SIZE, ENTRY_SIZE as nat)
    } else {
        None
    }
}

/// The first of the entries `from..length` of `all` that answers for `key`.
pub open spec fn first_answering(all: Seq<u8>, key: Seq<char>, from: int, length: int) -> Option<
    int,
>
    decreases length - from,
{
    if from >= length {
        None
    } else if answers(entry_of(all, from), key) {
        Some(from)
    } else {
        first_answering(all, key, from + 1, length)
    }
}

/// The text a Ruffle string holds: Latin-1 bytes, one per character, or
/// UTF-16 units.
pub open spec fn ruffle_text_is<M: Memory>(mem: &M, string: u64, text: Seq<char>) -> bool {
    match mem.bytes_at(string as int, 24) {
        None => false,
        Some(header) => {
            let units = le_u64(header);
            let meta = (le_u64(header.subrange(STRING_META as int, 24)) % 0x1_0000_0000) as u32;
            let length = meta % WIDE;
            if length > MAX_STRING {
                false
            } else if meta < WIDE {
                match mem.bytes_at(units as int, length as nat) {
                    None => false,
                    Some(latin1) => text.len() == length && forall|i: int|
                        0 <= i < length ==> #[trigger] text[i] as u32 == latin1[i] as u32,
                }
            } else {
                match mem.bytes_at(units as int, 2 * length as nat) {
                    None => false,
                    Some(bytes) => utf16_of(text) == crate::avm1::units_of(bytes, length as int),
                }
            }
        },
    }
}

/// A Ruffle heap, read with the vtable its AVM1 objects carry.
#[derive(Copy, Clone, Debug)]
pub struct RuffleHeap {
    pub object_vtable: u64,
}

impl RuffleHeap {
    /// Does this entry hold the hash of `key`?
fn answers_for(entry: &[u8], key: &str) -> (b: bool)
    ensures
        b == answers(entry@, key@),
{
    u64_at(entry, ENTRY_HASH) == Some(key_hash(key))
}

/// What `property` answers: the hinted entry when it still answers for
    /// `key`, otherwise the first entry that does -- and the slot it leaves.
    pub open spec fn property_of<M: Memory>(self, mem: &M, object: u64, key: Seq<char>, slot: u64) -> (
        Option<Value>,
        u64,
    ) {
        match entries_of(mem, object) {
            None => (None, slot),
            Some((entries, length)) => match hinted_entry(mem, entries, length, slot) {
                Some(entry) if answers(entry, key) => (decoded(entry), slot),
                _ => match mem.bytes_at(entries as int, (length * ENTRY_SIZE) as nat) {
                    None => (None, slot),
                    Some(all) => match first_answering(all, key, 0, length as int) {
                        Some(i) => (decoded(entry_of(all, i)), i as u64),
                        None => (None, slot),
                    },
                },
            },
        }
    }

    /// Is the value at `object` an AVM1 object: is its type the one this heap
    /// was proven with?
    pub open spec fn object_at<M: Memory>(self, mem: &M, object: u64) -> Option<bool> {
        if object < GC_VTABLE {
            None
        } else {
            match qword_at(mem, object - GC_VTABLE) {
                Some(tagged) => Some(tagged - tagged % 16 == self.object_vtable),
                None => None,
            }
        }
    }

    /// Where the entries of an object are now, and how many.
    ///
    /// Read again at every call: Ruffle moves them when the map grows.
    fn entries<M: Memory>(&self, memory: &M, object: Object) -> (r: Option<(u64, u64)>)
        ensures
            r == entries_of(memory, object.0),
    {
        let at = match object.0.checked_add(ENTRIES) {
            Some(at) => at,
            None => {
                return None;
            },
        };
        let mut map = [0u8; 24];
        if memory.read_into(at, &mut map).is_none() {
            return None;
        }
        let capacity = u64_at(&map, 0);
        let pointer = u64_at(&map, 8);
        let length = u64_at(&map, 16);
        assert(map@.subrange(0, 24) =~= map@);
        assert(map@.subrange(8, 24).subrange(0, 8) =~= map@.subrange(8, 16));
        match (capacity, pointer, length) {
            (Some(capacity), Some(pointer), Some(length)) => if length <= capacity && length
                <= MAX_ENTRIES {
                Some((pointer, length))
            } else {
                None
            },
            _ => None,
        }
    }

    fn decode(&self, entry: &[u8]) -> (r: Option<Value>)
        ensures
            r == decoded(entry@),
    {
        let payload = match u64_at(entry, VALUE_PAYLOAD) {
            Some(p) => p,
            None => {
                return None;
            },
        };
        let tag = entry[0];
        if tag == TAG_UNDEFINED {
            Some(Value::Undefined)
        } else if tag == TAG_NULL {
            Some(Value::Null)
        } else if tag == TAG_BOOL {
            Some(Value::Bool(entry[VALUE_BOOL] != 0))
        } else if tag == TAG_NUMBER {
            Some(Value::Number(Number::Double(payload)))
        } else if tag == TAG_STRING {
            Some(Value::String(StringReference(payload)))
        } else if tag == TAG_OBJECT {
            Some(Value::Object(ObjectReference(payload)))
        } else if tag == TAG_MOVIE_CLIP {
            Some(Value::Other)
        } else {
            None
        }
    }

    /// What the property `key` of `object` holds, or `None` when the object
    /// has no such property, or it cannot be read.
    pub fn property<M: Memory>(&self, memory: &M, object: Object, key: &str, slot: &mut Slot) -> (r:
        Option<Value>)
        ensures
            (r, final(slot).0) == self.property_of(memory, object.0, key@, old(slot).0),
    {
        let (entries, length) = match self.entries(memory, object) {
            Some(found) => found,
            None => {
                return None;
            },
        };
        let mut entry = [0u8; 56];
        if slot.0 < length && slot.0 * ENTRY_SIZE <= u64::MAX - entries {
            if memory.read_into(entries + slot.0 * ENTRY_SIZE, &mut entry).is_some() {
                if Self::answers_for(&entry, key) {
                    return self.decode(&entry);
                }
            }
        }
        let size = (length * ENTRY_SIZE) as usize;
        let mut all: Vec<u8> = Vec::new();
        let mut k: usize = 0;
        while k < size
            invariant
                all@.len() == k,
                k <= size,
            decreases size - k,
        {
            all.push(0);
            k = k + 1;
        }
        let bytes = all.as_mut_slice();
        if memory.read_into(entries, bytes).is_none() {
            return None;
        }
        let ghost read = bytes@;
        let ghost slot0 = slot.0;
        let mut index: u64 = 0;
        while index < length
            invariant
                read.len() == length * ENTRY_SIZE,
                bytes@ == read,
                length <= MAX_ENTRIES,
                index <= length,
                first_answering(read, key@, 0, length as int) == first_answering(
                    read,
                    key@,
                    index as int,
                    length as int,
                ),
                slot.0 == slot0,
                slot0 == old(slot).0,
                entries_of(memory, object.0) == Some((entries, length)),
                memory.bytes_at(entries as int, (length * ENTRY_SIZE) as nat) == Some(read),
                match hinted_entry(memory, entries, length, slot0) {
                    Some(e) => !answers(e, key@),
                    None => true,
                },
            decreases length - index,
        {
            let start = (index * ENTRY_SIZE) as usize;
            let mut one = [0u8; 56];
            let mut b: usize = 0;
            while b < 56
                invariant
                    read.len() == length * ENTRY_SIZE,
                    bytes@ == read,
                    index < length,
                    start == index * ENTRY_SIZE,
                    b <= 56,
                    forall|j: int| 0 <= j < b ==> one@[j] == read[start + j],
                decreases 56 - b,
            {
                assert(start + b < length * ENTRY_SIZE) by (nonlinear_arith)
                    requires
                        start == index * ENTRY_SIZE,
                        b < 56,
                        index < length,
                ;
                one[b] = bytes[start + b];
                b = b + 1;
            }
            assert(one@ =~= entry_of(read, index as int));
            if Self::answers_for(&one, key) {
                slot.0 = index;
                return self.decode(&one);
            }
            index = index + 1;
        }
        None
    }

    /// The object a reference leads to.
    pub fn object<M: Memory>(&self, memory: &M, reference: ObjectReference) -> (r: Option<Object>)
        ensures
            r == (if self.object_at(memory, reference.0) == Some(true) {
                Some(Object(reference.0))
            } else {
                None
            }),
    {
        let object = Object(reference.0);
        match self.is_object(memory, object) {
            Some(true) => Some(object),
            _ => None,
        }
    }

    /// The object a reference leads to, which must own `key`.
    pub fn object_owning<M: Memory>(&self, memory: &M, reference: ObjectReference, key: &str) -> (r:
        Option<Object>)
        ensures
            r == (if self.object_at(memory, reference.0) == Some(true) && self.property_of(
                memory,
                reference.0,
                key@,
                0,
            ).0 is Some {
                Some(Object(reference.0))
            } else {
                None
            }),
    {
        let object = match self.object(memory, reference) {
            Some(o) => o,
            None => {
                return None;
            },
        };
        let mut slot = Slot(0);
        match self.property(memory, object, key, &mut slot) {
            Some(_) => Some(object),
            None => None,
        }
    }

    /// Is this string exactly `text`?
    pub fn string_is<M: Memory>(&self, memory: &M, string: StringReference, text: &str) -> (b:
        bool)
        ensures
            b == ruffle_text_is(memory, string.0, text@),
    {
        string_is(memory, string, text)
    }

    /// Is this still an object of the heap? `None` when it cannot be read.
    pub fn is_object<M: Memory>(&self, memory: &M, object: Object) -> (r: Option<bool>)
        ensures
            r == self.object_at(memory, object.0),
    {
        if object.0 < GC_VTABLE {
            return None;
        }
        match read_u64(memory, object.0 - GC_VTABLE) {
            Some(tagged) => {
                assert(tagged & !0xFu64 == ((tagged - (tagged & 0xFu64)) as u64)) by (bit_vector);
                assert(tagged & 0xF == tagged % 16) by (bit_vector);
                Some(tagged & !GC_FLAGS == self.object_vtable)
            },
            None => None,
        }
    }

    /// The name of the layout this heap is read with, for the log.
    pub fn layout_name(&self) -> (name: &'static str)
        ensures
            name@ == LAYOUT_NAME@,
    {
        LAYOUT_NAME
    }
}

/// Is the Ruffle string at `string` exactly `text`?
fn string_is<M: Memory>(memory: &M, string: StringReference, text: &str) -> (b: bool)
    ensures
        b == ruffle_text_is(memory, string.0, text@),
{
    let mut header = [0u8; 24];
    if memory.read_into(string.0, &mut header).is_none() {
        return false;
    }
    let units = u64_at(&header, 0);
    let meta64 = u64_at(&header, STRING_META);
    assert(header@.subrange(0, 24) =~= header@);
    assert(header@.subrange(STRING_META as int, 24).subrange(0, 8) =~= header@.subrange(16, 24));
    let (units, meta64) = match (units, meta64) {
        (Some(u), Some(m)) => (u, m),
        _ => {
            return false;
        },
    };
    let meta = #[verifier::truncate] (meta64 as u32);
    assert(meta64 as u32 == meta64 % 0x1_0000_0000) by (bit_vector);
    let length = meta & !WIDE;
    assert(meta & !0x8000_0000u32 == meta % 0x8000_0000) by (bit_vector);
    assert((meta & 0x8000_0000u32 == 0) == (meta < 0x8000_0000)) by (bit_vector);
    if length > MAX_STRING as u32 {
        return false;
    }
    let n = length as usize;
    if meta & WIDE == 0 {
        let mut latin1: Vec<u8> = Vec::new();
        let mut k: usize = 0;
        while k < n
            invariant
                latin1@.len() == k,
                k <= n,
            decreases n - k,
        {
            latin1.push(0);
            k = k + 1;
        }
        let bytes = latin1.as_mut_slice();
        if memory.read_into(units, bytes).is_none() {
            return false;
        }
        compare_latin1(text, bytes)
    } else {
        let mut wide: Vec<u8> = Vec::new();
        let mut k: usize = 0;
        while k < 2 * n
            invariant
                wide@.len() == k,
                k <= 2 * n,
                n <= MAX_STRING,
            decreases 2 * n - k,
        {
            wide.push(0);
            k = k + 1;
        }
        let bytes = wide.as_mut_slice();
        if memory.read_into(units, bytes).is_none() {
            return false;
        }
        let expected = utf16_units(text);
        assert(crate::avm1::units_of(bytes@, n as int).len() == n);
        if expected.len() != n {
            return false;
        }
        let ghost answer = ruffle_text_is(memory, string.0, text@);
        assert(answer == (utf16_of(text@) == crate::avm1::units_of(bytes@, n as int)));
        let mut i: usize = 0;
        while i < n
            invariant
                answer == (utf16_of(text@) == crate::avm1::units_of(bytes@, n as int)),
                answer == ruffle_text_is(memory, string.0, text@),
                n <= MAX_STRING,
                bytes@.len() == 2 * n,
                expected@ == utf16_of(text@),
                expected@.len() == n,
                i <= n,
                forall|j: int|
                    0 <= j < i ==> expected@[j] == crate::avm1::units_of(bytes@, n as int)[j],
            decreases n - i,
        {
            let unit = bytes[2 * i] as u16 | (bytes[2 * i + 1] as u16) << 8;
            assert(crate::avm1::units_of(bytes@, n as int)[i as int] == unit);
            if unit != expected[i] {
                return false;
            }
            i = i + 1;
        }
        assert(expected@ =~= crate::avm1::units_of(bytes@, n as int));
        true
    }
}

/// Are the characters of `text` the Latin-1 bytes `latin1`?
fn compare_latin1(text: &str, latin1: &[u8]) -> (b: bool)
    ensures
        b == (text@.len() == latin1@.len() && forall|i: int|
            0 <= i < latin1@.len() ==> #[trigger] text@[i] as u32 == latin1@[i] as u32),
{
    broadcast use vstd::string::group_string_axioms;

    let n = latin1.len();
    let mut i: usize = 0;
    for c in it: text.chars()
        invariant
            it.seq() == text@,
            n == latin1@.len(),
            i == it.index(),
            forall|j: int| 0 <= j < i && j < n ==> text@[j] as u32 == latin1@[j] as u32,
            i <= n,
    {
        if i >= n {
            return false;
        }
        if c as u32 != latin1[i] as u32 {
            return false;
        }
        i = i + 1;
    }
    i == n
}

/// Ruffle, as the search sees it.
pub struct Ruffle {
    pub module: (u64, u64),
    /// The vtable of an AVM1 object, once a game proved it. ASLR moves it
    /// with the module, so it lives as long as the process.
    pub object_vtable: Option<u64>,
}

impl Default for Ruffle {
    fn default() -> (r: Ruffle)
        ensures
            r.module == (0u64, 0u64),
            r.object_vtable is None,
    {
        Ruffle { module: (0, 0), object_vtable: None }
    }
}

impl Ruffle {
    /// A Ruffle process to search, whose executable sits at `module`.
    pub fn attached_to(module: (u64, u64)) -> (r: Ruffle)
        ensures
            r.module == module,
            r.object_vtable is None,
    {
        let mut player = Ruffle::default();
        player.attach(module);
        player
    }

    /// A Ruffle process to search, whose executable sits at `module`. What
    /// another process proved means nothing here.
    pub fn attach(&mut self, module: (u64, u64))
        ensures
            final(self).module == module,
            final(self).object_vtable is None,
    {
        self.module = module;
        self.object_vtable = None;
    }

    /// A game was read with this heap: the next search may start from it.
    pub fn learn(&mut self, heap: &RuffleHeap)
        ensures
            final(self).module == old(self).module,
            final(self).object_vtable == Some(heap.object_vtable),
    {
        self.object_vtable = Some(heap.object_vtable);
    }

    /// The vtable of the object at `object`, when it is the vtable of an AVM1
    /// object: the one already proven, or a vtable in the module that says
    /// the alignment and the size of one.
    pub open spec fn vtable_of<M: Memory>(self, mem: &M, object: u64) -> Option<u64> {
        if object < GC_VTABLE {
            None
        } else {
            match qword_at(mem, object - GC_VTABLE) {
                None => None,
                Some(tagged) => {
                    let vtable = (tagged - tagged % 16) as u64;
                    match self.object_vtable {
                        Some(known) => if vtable == known {
                            Some(vtable)
                        } else {
                            None
                        },
                        None => if !(self.module.0 <= vtable < self.module.1) {
                            None
                        } else {
                            match mem.bytes_at(vtable as int, 16) {
                                Some(layout) => if le_u64(layout) == OBJECT_ALIGNMENT && le_u64(
                                    layout.subrange(8, 16),
                                ) == OBJECT_SIZE {
                                    Some(vtable)
                                } else {
                                    None
                                },
                                None => None,
                            }
                        },
                    }
                },
            }
        }
    }

    /// The vtable of the object at `object`, when it is the vtable of an AVM1
    /// object.
    pub fn object_vtable_of<M: Memory>(&self, memory: &M, object: u64) -> (r: Option<u64>)
        ensures
            r == self.vtable_of(memory, object),
    {
        if object < GC_VTABLE {
            return None;
        }
        let tagged = match read_u64(memory, object - GC_VTABLE) {
            Some(t) => t,
            None => {
                return None;
            },
        };
        assert(tagged & !0xFu64 == ((tagged - (tagged & 0xFu64)) as u64)) by (bit_vector);
        assert(tagged & 0xF == tagged % 16) by (bit_vector);
        let vtable = tagged & !GC_FLAGS;
        if let Some(known) = self.object_vtable {
            return if vtable == known {
                Some(vtable)
            } else {
                None
            };
        }
        if !(self.module.0 <= vtable && vtable < self.module.1) {
            return None;
        }
        let mut layout = [0u8; 16];
        if memory.read_into(vtable, &mut layout).is_none() {
            return None;
        }
        assert(layout@.subrange(0, 16) =~= layout@);
        assert(layout@.subrange(8, 16).subrange(0, 8) =~= layout@.subrange(8, 16));
        match (u64_at(&layout, 0), u64_at(&layout, 8)) {
            (Some(alignment), Some(size)) => if alignment == OBJECT_ALIGNMENT && size
                == OBJECT_SIZE {
                Some(vtable)
            } else {
                None
            },
            _ => None,
        }
    }

    /// Is the entry at `entry` an entry of `key`: a known value tag, the hash
    /// of the key, and a key string that is the key?
    pub open spec fn entry_of_key<M: Memory>(mem: &M, entry: u64, key: Seq<char>) -> bool {
        match mem.bytes_at(entry as int, ENTRY_SIZE as nat) {
            None => false,
            Some(bytes) => bytes[0] <= TAG_MOVIE_CLIP && answers(bytes, key) && ruffle_text_is(
                mem,
                le_u64(bytes.subrange(ENTRY_KEY as int, ENTRY_SIZE as int)),
                key,
            ),
        }
    }

    /// Is this an entry, of this key?
    pub fn is_entry_of<M: Memory>(&self, memory: &M, entry: u64, key: &str) -> (b: bool)
        ensures
            b == Ruffle::entry_of_key(memory, entry, key@),
    {
        let mut bytes = [0u8; 56];
        if memory.read_into(entry, &mut bytes).is_none() || bytes[0] > TAG_MOVIE_CLIP {
            return false;
        }
        let key_string = match u64_at(&bytes, ENTRY_KEY) {
            Some(k) => k,
            None => {
                return false;
            },
        };
        let hashed = u64_at(&bytes, ENTRY_HASH);
        hashed == Some(key_hash(key)) && string_is(memory, StringReference(key_string), key)
    }
}


/// Is `v` one of `values`?
fn listed(values: &Vec<u64>, v: u64) -> (b: bool)
    ensures
        b == values@.contains(v),
{
    let mut k: usize = 0;
    while k < values.len()
        invariant
            k <= values@.len(),
            forall|j: int| 0 <= j < k ==> values@[j] != v,
        decreases values@.len() - k,
    {
        if values[k] == v {
            return true;
        }
        k = k + 1;
    }
    false
}

/// Does the map whose entries start at `pointer`, `length` of them, hold one
/// of `entries`?
fn holds_an_entry(entries: &Vec<u64>, pointer: u64, reach: u64) -> (b: bool)
    ensures
        b == holds_entry(entries@, pointer, reach),
{
    let mut k: usize = 0;
    while k < entries.len()
        invariant
            k <= entries@.len(),
            forall|j: int|
                0 <= j < k ==> !(#[trigger] entries@[j] >= pointer && (entries@[j] - pointer) % (
                ENTRY_SIZE as int) == 0 && entries@[j] - pointer < reach),
        decreases entries@.len() - k,
    {
        let e = entries[k];
        if e >= pointer && (e - pointer) % ENTRY_SIZE == 0 && e - pointer < reach {
            return true;
        }
        k = k + 1;
    }
    false
}

/// The entries that the addresses of their hashes, `hashes`, give, each one
/// once, in the order they first come.
pub open spec fn entry_list(hashes: Seq<u64>) -> Seq<u64>
    decreases hashes.len(),
{
    if hashes.len() == 0 {
        Seq::empty()
    } else {
        let before = entry_list(hashes.drop_last());
        let entry = (hashes.last() - ENTRY_HASH) as u64;
        if before.contains(entry) {
            before
        } else {
            before.push(entry)
        }
    }
}

/// Where the entries of `key` are found in `memory`, from the hash that
/// comes after the key string in each of them. Hashes in the overlap of two
/// blocks come twice.
pub open spec fn entry_hashes<M: Memory>(
    memory: &M,
    key: Seq<char>,
    fresh: Seq<(u64, u64)>,
) -> Seq<u64> {
    all_in_sweep(memory, sweep_blocks(fresh), 8, 8, hash_of_entry(memory, key))
}

/// A qword of a block that is the hash of `key`, at the place of the hash in
/// an entry of `key`.
pub open spec fn hash_of_entry<M: Memory>(memory: &M, key: Seq<char>) -> spec_fn(u64, Seq<u8>, int) -> bool {
    |b: u64, bytes: Seq<u8>, i: int|
        qword_in(bytes, i) == hash_of(key) && b + i >= ENTRY_HASH && Ruffle::entry_of_key(
            memory,
            (b + i - ENTRY_HASH) as u64,
            key,
        )
}

/// The entries of `key` in the memory that changed: each one once, in the
/// order of the sweep.
pub open spec fn key_entries_in<M: Memory>(memory: &M, key: Seq<char>, fresh: Seq<(u64, u64)>) -> Seq<u64> {
    entry_list(entry_hashes(memory, key, fresh))
}

impl Ruffle {
    /// The entries of `key`, found by their hash in the memory that changed:
    /// each one once, each one checked.
    fn key_entries<M: Memory, L: SearchLog>(
        &self,
        memory: &M,
        key: &str,
        fresh: &[(u64, u64)],
        cost: &mut Scan,
        log: &mut L,
    ) -> (entries: Vec<u64>)
        ensures
            entries@ == key_entries_in(memory, key@, fresh@),
            forall|k: int|
                0 <= k < entries@.len() ==> Ruffle::entry_of_key(memory, #[trigger] entries@[k], key@),
    {
        let ghost hit = hash_of_entry(memory, key@);
        let ghost all = entry_hashes(memory, key@, fresh@);
        let ghost mut got: Seq<u64> = Seq::empty();
        let wanted = key_hash(key);
        let mut entries: Vec<u64> = Vec::new();
        let mut sweep = Sweep::new();
        loop
            invariant
                sweep.wf(fresh@),
                sweep.left(fresh@) >= 0,
                wanted == hash_of(key@),
                hit == hash_of_entry(memory, key@),
                all == entry_hashes(memory, key@, fresh@),
                all == got + all_in_sweep(memory, sweep.blocks(fresh@), 8, 8, hit),
                entries@ == entry_list(got),
                forall|k: int|
                    0 <= k < entries@.len() ==> Ruffle::entry_of_key(
                        memory,
                        #[trigger] entries@[k],
                        key@,
                    ),
            decreases sweep.left(fresh@),
        {
            let ghost before = sweep.blocks(fresh@);
            let (base, n, pause) = match sweep.next_block(fresh) {
                Some(b) => b,
                None => {
                    assert(all =~= got);
                    return entries;
                },
            };
            let ghost rest = all_in_sweep(memory, sweep.blocks(fresh@), 8, 8, hit);
            assert(before.drop_first() =~= sweep.blocks(fresh@));
            let mut block = vec![0u8; n as usize];
            if cost.read_block(memory, base, block.as_mut_slice(), log) {
                let ghost bytes = block@;
                let mut i: u64 = 0;
                assert(all =~= got + all_in_block(hit, base, bytes, n as int, 0, 8, 8) + rest);
                while i + 8 <= n
                    invariant
                        block@.len() == n,
                        bytes == block@,
                        0 < n <= crate::scan::CHUNK,
                        base + n <= u64::MAX,
                        i <= n,
                        wanted == hash_of(key@),
                        hit == hash_of_entry(memory, key@),
                        all == entry_hashes(memory, key@, fresh@),
                        all == got + all_in_block(hit, base, bytes, n as int, i as int, 8, 8) + rest,
                        entries@ == entry_list(got),
                        forall|k: int|
                            0 <= k < entries@.len() ==> Ruffle::entry_of_key(
                                memory,
                                #[trigger] entries@[k],
                                key@,
                            ),
                    decreases n + 8 - i,
                {
                    let q = match u64_at(block.as_slice(), i as usize) {
                        Some(q) => q,
                        None => 0,
                    };
                    assert(q == qword_in(bytes, i as int));
                    let at = base + i;
                    let ghost head = if hit(base, bytes, i as int) {
                        seq![(base + i) as u64]
                    } else {
                        Seq::<u64>::empty()
                    };
                    assert(all_in_block(hit, base, bytes, n as int, i as int, 8, 8) == head
                        + all_in_block(
                        hit,
                        base,
                        bytes,
                        n as int,
                        crate::scan::next_offset(n as int, i as int, 8),
                        8,
                        8,
                    ));
                    if q == wanted && at >= ENTRY_HASH as u64 {
                        let entry = at - ENTRY_HASH as u64;
                        // Two blocks overlap, so a hit can come twice.
                        if !listed(&entries, entry) {
                            if self.is_entry_of(memory, entry, key) {
                                entries.push(entry);
                            }
                        }
                    }
                    proof {
                        let next = got + head;
                        if hit(base, bytes, i as int) {
                            assert(next.drop_last() =~= got);
                            assert(next.last() == at);
                        } else {
                            assert(next =~= got);
                        }
                        got = next;
                        if i + 16 > n {
                            assert(all_in_block(hit, base, bytes, n as int, i + 8, 8, 8) =~= Seq::<
                                u64,
                            >::empty());
                            assert(all_in_block(hit, base, bytes, n as int, n + 1, 8, 8) =~= Seq::<
                                u64,
                            >::empty());
                        }
                    }
                    assert(all =~= got + all_in_block(hit, base, bytes, n as int, i + 8, 8, 8) + rest);
                    i = i + 8;
                }
                assert(all_in_block(hit, base, bytes, n as int, i as int, 8, 8) =~= Seq::<u64>::empty());
                assert(all =~= got + rest);
            } else {
                assert(all =~= got + rest);
            }
            if pause {
                cost.paused(log);
            }
        }
    }

    /// The first object, in the order of the sweep, whose map holds an entry
    /// of `key`, and the heap that reads it.
    ///
    /// Two sweeps. The first finds the entries of `key` by their hash, in the
    /// memory that changed. The second finds the maps that hold them, in all
    /// the memory: a qword that points at the start of the entries, followed
    /// by a length that reaches the entry. The object is proven by the vtable
    /// of its type.
    pub fn objects_owning<M: Memory, L: SearchLog>(
        &self,
        memory: &M,
        key: &str,
        fresh: &[(u64, u64)],
        all: &[(u64, u64)],
        cost: &mut Scan,
        log: &mut L,
    ) -> (r: Option<(RuffleHeap, Object)>)
        ensures
            (match r {
                Some((heap, object)) => Some((heap.object_vtable, object.0)),
                None => None,
            }) == self.owner_of(memory, key@, fresh@, all@),
            r matches Some((heap, object)) ==> self.vtable_of(memory, object.0) == Some(
                heap.object_vtable,
            ),
    {
        cost.stage("key_entries", log);
        let entries = self.key_entries(memory, key, fresh, cost, log);
        if entries.len() == 0 {
            return None;
        }
        let mut lowest = entries[0];
        let mut highest = entries[0];
        let mut k: usize = 1;
        assert(entries@.take(1) =~= seq![entries@[0]]);
        while k < entries.len()
            invariant
                1 <= k <= entries@.len(),
                lowest == lowest_of(entries@.take(k as int)),
                highest == highest_of(entries@.take(k as int)),
            decreases entries@.len() - k,
        {
            assert(entries@.take(k + 1).drop_last() =~= entries@.take(k as int));
            if entries[k] < lowest {
                lowest = entries[k];
            }
            if entries[k] > highest {
                highest = entries[k];
            }
            k = k + 1;
        }
        assert(entries@.take(k as int) =~= entries@);
        let ghost hit = owner_at(*self, memory, entries@, lowest, highest);
        let ghost answer = first_in_sweep(memory, sweep_blocks(all@), 8, 8, hit);
        cost.stage("key_owners", log);
        let mut tried: Vec<u64> = Vec::new();
        let mut sweep = Sweep::new();
        loop
            invariant
                sweep.wf(all@),
                sweep.left(all@) >= 0,
                hit == owner_at(*self, memory, entries@, lowest, highest),
                answer == first_in_sweep(memory, sweep_blocks(all@), 8, 8, hit),
                answer == first_in_sweep(memory, sweep.blocks(all@), 8, 8, hit),
                answer == self.owner_of(memory, key@, fresh@, all@),
                forall|j: int| 0 <= j < tried@.len() ==> self.vtable_of(memory, #[trigger] tried@[j]) is None,
            decreases sweep.left(all@),
        {
            let ghost before = sweep.blocks(all@);
            let (base, n, pause) = match sweep.next_block(all) {
                Some(b) => b,
                None => {
                    return None;
                },
            };
            proof {
                lemma_first_in_sweep_step(memory, before, (base, n, pause), sweep.blocks(all@), 8, 8, hit);
            }
            let mut block = vec![0u8; n as usize];
            if cost.read_block(memory, base, block.as_mut_slice(), log) {
                let ghost bytes = block@;
                let mut i: u64 = 0;
                while i + 8 <= n
                    invariant
                        block@.len() == n,
                        bytes == block@,
                        0 < n <= crate::scan::CHUNK,
                        base + n <= u64::MAX,
                        i <= n,
                        hit == owner_at(*self, memory, entries@, lowest, highest),
                        answer == self.owner_of(memory, key@, fresh@, all@),
                        answer == match first_in_block(hit, base, bytes, n as int, 0, 8, 8) {
                            Some(t) => Some(t),
                            None => first_in_sweep(memory, sweep.blocks(all@), 8, 8, hit),
                        },
                        first_in_block(hit, base, bytes, n as int, 0, 8, 8) == first_in_block(
                            hit,
                            base,
                            bytes,
                            n as int,
                            i as int,
                            8,
                            8,
                        ),
                        forall|j: int|
                            0 <= j < tried@.len() ==> self.vtable_of(memory, #[trigger] tried@[j]) is None,
                    decreases n + 8 - i,
                {
                    let pointer = match u64_at(block.as_slice(), i as usize) {
                        Some(p) => p,
                        None => 0,
                    };
                    assert(pointer == qword_in(bytes, i as int));
                    let address = base + i;
                    if let Some(length) = u64_at(block.as_slice(), (i + 8) as usize) {
                        assert(length == qword_in(bytes, i + 8));
                        let reach = if length > u64::MAX / ENTRY_SIZE {
                            u64::MAX
                        } else {
                            assert(length * ENTRY_SIZE <= u64::MAX) by (nonlinear_arith)
                                requires
                                    length <= u64::MAX / ENTRY_SIZE,
                            ;
                            length * ENTRY_SIZE
                        };
                        assert(reach == reach_of(length));
                        if !(pointer > highest || pointer.saturating_add(reach) <= lowest || length
                            > MAX_ENTRIES) && address >= ENTRIES_POINTER {
                            let object = address - ENTRIES_POINTER;
                            if holds_an_entry(&entries, pointer, reach) {
                                if !listed(&tried, object) {
                                    tried.push(object);
                                    if let Some(object_vtable) = self.object_vtable_of(memory, object) {
                                        assert(hit(base, bytes, i as int) == Some((object_vtable, object)));
                                        assert(first_in_block(hit, base, bytes, n as int, i as int, 8, 8)
                                            == Some((object_vtable, object)));
                                        return Some((RuffleHeap { object_vtable }, Object(object)));
                                    }
                                } else {
                                    proof {
                                        let j = choose|j: int| 0 <= j < tried@.len() && tried@[j] == object;
                                        assert(self.vtable_of(memory, tried@[j]) is None);
                                    }
                                }
                            }
                        }
                    }
                    assert(hit(base, bytes, i as int) is None);
                    proof {
                        lemma_first_in_block_next(hit, base, bytes, n as int, i as int, 8, 8);
                    }
                    i = i + 8;
                }
                assert(first_in_block(hit, base, bytes, n as int, i as int, 8, 8) is None);
            }
            if pause {
                cost.paused(log);
            }
        }
    }

    /// The object `objects_owning` finds, as its vtable and its address: with
    /// the entries of `key` in the memory that changed, the first map in the
    /// order of the sweep of `all` that holds one of them.
    pub open spec fn owner_of<M: Memory>(
        self,
        memory: &M,
        key: Seq<char>,
        fresh: Seq<(u64, u64)>,
        all: Seq<(u64, u64)>,
    ) -> Option<(u64, u64)> {
        let entries = key_entries_in(memory, key, fresh);
        if entries.len() == 0 {
            None
        } else {
            first_in_sweep(
                memory,
                sweep_blocks(all),
                8,
                8,
                owner_at(self, memory, entries, lowest_of(entries), highest_of(entries)),
            )
        }
    }
}

/// The lowest of the addresses.
pub open spec fn lowest_of(s: Seq<u64>) -> u64
    decreases s.len(),
{
    if s.len() == 0 {
        0
    } else if s.len() == 1 {
        s[0]
    } else if s.last() < lowest_of(s.drop_last()) {
        s.last()
    } else {
        lowest_of(s.drop_last())
    }
}

/// The highest of the addresses.
pub open spec fn highest_of(s: Seq<u64>) -> u64
    decreases s.len(),
{
    if s.len() == 0 {
        0
    } else if s.len() == 1 {
        s[0]
    } else if s.last() > highest_of(s.drop_last()) {
        s.last()
    } else {
        highest_of(s.drop_last())
    }
}

/// How many bytes `length` entries span, capped at `u64::MAX`.
pub open spec fn reach_of(length: u64) -> u64 {
    if length > u64::MAX / ENTRY_SIZE {
        u64::MAX
    } else {
        (length * ENTRY_SIZE) as u64
    }
}

/// Does the map whose entries start at `pointer`, and span `reach` bytes,
/// hold one of `entries`?
pub open spec fn holds_entry(entries: Seq<u64>, pointer: u64, reach: u64) -> bool {
    exists|k: int|
        0 <= k < entries.len() && #[trigger] entries[k] >= pointer && (entries[k] - pointer) % (
        ENTRY_SIZE as int) == 0 && entries[k] - pointer < reach
}

/// A qword of a block that points at entries, followed by a length that
/// reaches one of `entries`, in an object proven by its vtable: the vtable
/// and the object.
pub open spec fn owner_at<M: Memory>(
    ruffle: Ruffle,
    memory: &M,
    entries: Seq<u64>,
    lowest: u64,
    highest: u64,
) -> spec_fn(u64, Seq<u8>, int) -> Option<(u64, u64)> {
    |b: u64, bytes: Seq<u8>, i: int|
        if i + 16 > bytes.len() {
            None
        } else {
            let pointer = qword_in(bytes, i);
            let length = qword_in(bytes, i + 8);
            let reach = reach_of(length);
            let end = if pointer + reach > u64::MAX {
                u64::MAX
            } else {
                (pointer + reach) as u64
            };
            if !(pointer > highest || end <= lowest || length > MAX_ENTRIES) && b + i
                >= ENTRIES_POINTER && holds_entry(entries, pointer, reach) {
                match ruffle.vtable_of(memory, (b + i - ENTRIES_POINTER) as u64) {
                    Some(vt) => Some((vt, (b + i - ENTRIES_POINTER) as u64)),
                    None => None,
                }
            } else {
                None
            }
        }
}

} // verus!
