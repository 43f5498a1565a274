//! AVM1 atom decoding.
//!
//! An atom is `(value << 3) | tag`. The three low bits give the type. The
//! values below were measured on pepflashplayer.dll 32.0.0.465.
use vstd::prelude::*;

use crate::heap::Number;

verus! {

pub const TAG_INT: u64 = 0;
pub const TAG_DOUBLE: u64 = 1;
pub const TAG_SPECIAL: u64 = 2;
pub const TAG_NATIVE: u64 = 3;
pub const TAG_STRING: u64 = 5;
pub const TAG_OBJECT: u64 = 6;

pub const NULL: u64 = 0x0A;
pub const FALSE: u64 = 0x12;
pub const TRUE: u64 = 0x32;

/// The 64 bits of an atom, read as a two's complement integer.
pub open spec fn signed(atom: u64) -> int {
    if atom < 0x8000_0000_0000_0000 {
        atom as int
    } else {
        atom as int - 0x1_0000_0000_0000_0000
    }
}

/// The integer an atom carries, when its tag says it is one.
pub open spec fn int_of(atom: u64) -> Option<i64> {
    if atom % 8 == TAG_INT {
        Some((signed(atom) / 8) as i64)
    } else {
        None
    }
}

/// The type of an atom: its three low bits.
pub fn tag(atom: u64) -> (t: u64)
    ensures
        t == atom % 8,
{
    assert(atom & 7 == atom % 8) by (bit_vector);
    atom & 7
}

/// The pointer an atom carries, with the tag removed.
pub fn ptr(atom: u64) -> (p: u64)
    ensures
        p == atom - atom % 8,
{
    assert(atom & !7u64 == ((atom - (atom & 7u64)) as u64)) by (bit_vector);
    assert(atom & 7 == atom % 8) by (bit_vector);
    atom & !7
}

/// Atom -> **signed** integer.
///
/// The shift must be arithmetic. `portalId` is -1, encoded as
/// `0xfffffffffffffff8`. A logical shift would turn it into
/// 2305843009213693951.
pub fn as_int(atom: u64) -> (r: Option<i64>)
    ensures
        r == int_of(atom),
{
    if tag(atom) != TAG_INT {
        return None;
    }
    let v = atom as i64;
    assert(atom < 0x8000_0000_0000_0000u64 ==> (atom as i64) as int == atom as int) by (bit_vector);
    assert(atom >= 0x8000_0000_0000_0000u64 ==> (atom as i64) as int == atom as int - 0x1_0000_0000_0000_0000int) by (bit_vector);
    assert(atom & 7 == 0 ==> (atom as i64) & 7 == 0) by (bit_vector);
    assert(v as int == signed(atom));
    let shifted = v >> 3;
    assert(atom & 7 == atom % 8) by (bit_vector);
    assert(v >> 3 == v / 8) by (bit_vector)
        requires
            v & 7 == 0,
    ;
    Some(shifted)
}

/// Float atom -> the address of the eight bytes of the double.
///
/// A float does not fit inside the atom, unlike an integer. The atom points to
/// the value, so the caller reads it.
pub fn double_at(atom: u64) -> (r: Option<u64>)
    ensures
        r == (if atom % 8 == TAG_DOUBLE {
            Some((atom - atom % 8) as u64)
        } else {
            None
        }),
{
    if tag(atom) == TAG_DOUBLE {
        Some(ptr(atom))
    } else {
        None
    }
}

/// The eight bytes read at that address, as a number.
pub fn decode_double(raw: u64) -> (n: Number)
    ensures
        n == Number::Double(raw),
{
    Number::Double(raw)
}

/// `true` and `false`, and nothing else: null is neither.
pub fn as_bool(atom: u64) -> (r: Option<bool>)
    ensures
        r == (if atom == TRUE {
            Some(true)
        } else if atom == FALSE {
            Some(false)
        } else {
            None
        }),
{
    if atom == TRUE {
        Some(true)
    } else if atom == FALSE {
        Some(false)
    } else {
        None
    }
}

} // verus!
