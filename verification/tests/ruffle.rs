use hammerfest_autosplitter::heap::{Number, Object, ObjectReference, Slot, StringReference, Value};
use hammerfest_autosplitter::memory::Heap;
use hammerfest_autosplitter::ruffle::{key_hash, Ruffle, RuffleHeap};
use hammerfest_autosplitter::scan::{Scan, Silent};

/// FNV-1a 64 over each UTF-16 unit of the key, lowered and written little
/// endian, then one byte 0xff: the hash Ruffle keeps beside a key.
fn fnv(key: &str) -> u64 {
    let mut hash: u64 = 0xcbf2_9ce4_8422_2325;
    let mut bytes: Vec<u8> = Vec::new();
    for unit in key.encode_utf16() {
        let lowered = if (0x41..=0x5a).contains(&unit) { unit + 0x20 } else { unit };
        bytes.extend_from_slice(&lowered.to_le_bytes());
    }
    bytes.push(0xff);
    for byte in bytes {
        hash ^= byte as u64;
        hash = hash.wrapping_mul(0x0000_0100_0000_01b3);
    }
    hash
}

#[test]
fn the_hash_of_a_key_is_fnv_over_its_lowered_units() {
    for key in ["world", "World", "]=[]8", "", "éa", "fVersion"] {
        assert_eq!(key_hash(key), fnv(key), "{key}");
    }
    assert_eq!(key_hash("WORLD"), key_hash("world"));
}

const BASE: u64 = 0x10_0000;
const MODULE: (u64, u64) = (0x4000_0000, 0x4100_0000);
const OBJECT_VTABLE: u64 = MODULE.0 + 0x800;

/// A Ruffle heap: an object whose map holds `world` (an object), `level` (a
/// number), `name` (a string), in this order.
struct Bytes {
    data: Vec<u8>,
}

impl Bytes {
    fn put(&mut self, address: u64, value: u64) {
        let at = (address - BASE) as usize;
        self.data[at..at + 8].copy_from_slice(&value.to_le_bytes());
    }

    fn put_byte(&mut self, address: u64, value: u8) {
        self.data[(address - BASE) as usize] = value;
    }
}

const OBJECT: u64 = BASE + 0x100;
const ENTRIES: u64 = BASE + 0x400;
const STRINGS: u64 = BASE + 0x800;

fn a_heap() -> Heap {
    let mut b = Bytes {
        data: vec![0u8; 0x1000],
    };
    // The vtable of the object, tagged with flags of the collector.
    b.put(OBJECT - 8, OBJECT_VTABLE | 0x3);
    // Its map: capacity, pointer, length.
    b.put(OBJECT + 0x08, 4);
    b.put(OBJECT + 0x10, ENTRIES);
    b.put(OBJECT + 0x18, 3);
    let keys = ["world", "level", "name"];
    for (i, key) in keys.iter().enumerate() {
        let entry = ENTRIES + i as u64 * 56;
        let string = STRINGS + i as u64 * 0x40;
        // The key string: Latin-1 units, then the length.
        b.put(string, string + 0x20);
        b.put(string + 0x10, key.len() as u64);
        for (k, byte) in key.bytes().enumerate() {
            b.put_byte(string + 0x20 + k as u64, byte);
        }
        b.put(entry + 0x28, string);
        b.put(entry + 0x30, key_hash(key));
    }
    // world: an object.
    b.put_byte(ENTRIES, 5);
    b.put(ENTRIES + 8, OBJECT);
    // level: a number.
    b.put_byte(ENTRIES + 56, 3);
    b.put(ENTRIES + 56 + 8, 7.0f64.to_bits());
    // name: a string, the one of `name` itself.
    b.put_byte(ENTRIES + 112, 4);
    b.put(ENTRIES + 112 + 8, STRINGS + 0x80);
    // The vtable of an AVM1 object says its alignment and its size.
    let mut vtable = vec![0u8; 16];
    vtable[..8].copy_from_slice(&8u64.to_le_bytes());
    vtable[8..].copy_from_slice(&160u64.to_le_bytes());
    Heap::default()
        .with_range(BASE, b.data)
        .with_range(OBJECT_VTABLE, vtable)
}

fn heap() -> RuffleHeap {
    RuffleHeap {
        object_vtable: OBJECT_VTABLE,
    }
}

#[test]
fn a_property_is_read_from_its_entry() {
    let memory = a_heap();
    let mut slot = Slot::default();
    assert_eq!(
        heap().property(&memory, Object(OBJECT), "level", &mut slot),
        Some(Value::Number(Number::Double(7.0f64.to_bits())))
    );
    assert_eq!(slot, Slot(1));
    assert_eq!(
        heap().property(&memory, Object(OBJECT), "world", &mut Slot::default()),
        Some(Value::Object(ObjectReference(OBJECT)))
    );
    assert_eq!(
        heap().property(&memory, Object(OBJECT), "absent", &mut Slot::default()),
        None
    );
}

#[test]
fn a_slot_that_no_longer_answers_is_searched_again() {
    let memory = a_heap();
    let mut slot = Slot(2);
    assert_eq!(
        heap().property(&memory, Object(OBJECT), "world", &mut slot),
        Some(Value::Object(ObjectReference(OBJECT)))
    );
    assert_eq!(slot, Slot(0));
}

#[test]
fn an_object_is_proven_by_its_type() {
    let memory = a_heap();
    assert_eq!(heap().is_object(&memory, Object(OBJECT)), Some(true));
    let other = RuffleHeap {
        object_vtable: OBJECT_VTABLE + 8,
    };
    assert_eq!(other.is_object(&memory, Object(OBJECT)), Some(false));
    assert_eq!(heap().object(&memory, ObjectReference(OBJECT)), Some(Object(OBJECT)));
    assert_eq!(other.object(&memory, ObjectReference(OBJECT)), None);
    assert_eq!(
        heap().object_owning(&memory, ObjectReference(OBJECT), "name"),
        Some(Object(OBJECT))
    );
    assert_eq!(
        heap().object_owning(&memory, ObjectReference(OBJECT), "absent"),
        None
    );
}

#[test]
fn a_string_is_compared_unit_by_unit() {
    let memory = a_heap();
    assert!(heap().string_is(&memory, StringReference(STRINGS), "world"));
    assert!(!heap().string_is(&memory, StringReference(STRINGS), "worlds"));
    assert!(!heap().string_is(&memory, StringReference(STRINGS), "World"));
}

#[test]
fn the_object_that_owns_a_key_is_found_by_its_hash() {
    let memory = a_heap();
    let ruffle = Ruffle::attached_to(MODULE);
    let ranges = [(BASE, BASE + 0x1000)];
    let mut log = Silent;
    let mut scan = Scan::new(&mut log);
    let found = ruffle.objects_owning(&memory, "level", &ranges, &ranges, &mut scan, &mut log);
    assert_eq!(found.map(|(_, object)| object), Some(Object(OBJECT)));
    let nothing = ruffle.objects_owning(&memory, "absent", &ranges, &ranges, &mut scan, &mut log);
    assert!(nothing.is_none());
}

#[test]
fn a_learned_vtable_is_the_only_one_accepted() {
    let mut ruffle = Ruffle::attached_to(MODULE);
    ruffle.learn(&RuffleHeap {
        object_vtable: OBJECT_VTABLE + 8,
    });
    let memory = a_heap();
    assert_eq!(ruffle.object_vtable_of(&memory, OBJECT), None);
    // Another process: what the last one proved means nothing here.
    ruffle.attach(MODULE);
    assert_eq!(ruffle.object_vtable_of(&memory, OBJECT), Some(OBJECT_VTABLE));
}

#[test]
fn a_key_hashes_as_its_lower_case() {
    assert_eq!(key_hash("GameMode"), key_hash("gamemode"));
    assert_eq!(key_hash("fVersion"), key_hash("FVERSION"));
    assert_ne!(key_hash("world"), key_hash("worlds"));
}
