//! Comparing text, and the UTF-16 units a Flash player stores it in.
use vstd::prelude::*;
use vstd::string::StringSliceAdditionalSpecFns;

verus! {

/// Two strings are equal exactly when their UTF-8 bytes are.
proof fn lemma_same_bytes_same_chars(a: &str, b: &str)
    requires
        a.spec_bytes() == b.spec_bytes(),
    ensures
        a@ == b@,
{
    vstd::utf8::encode_utf8_decode_utf8(a@);
    vstd::utf8::encode_utf8_decode_utf8(b@);
}

/// Is `a` the same text as `b`?
pub fn same_text(a: &str, b: &str) -> (r: bool)
    ensures
        r == (a@ == b@),
{
    let x = a.as_bytes();
    let y = b.as_bytes();
    if x.len() != y.len() {
        return false;
    }
    let mut i: usize = 0;
    while i < x.len()
        invariant
            x@ == a.spec_bytes(),
            y@ == b.spec_bytes(),
            x@.len() == y@.len(),
            i <= x@.len(),
            forall|j: int| 0 <= j < i ==> x@[j] == y@[j],
        decreases x@.len() - i,
    {
        if x[i] != y[i] {
            return false;
        }
        i = i + 1;
    }
    assert(x@ =~= y@);
    proof {
        lemma_same_bytes_same_chars(a, b);
    }
    true
}

/// The UTF-16 units of one character.
pub open spec fn utf16_of_char(c: char) -> Seq<u16> {
    let v = c as u32;
    if v < 0x1_0000 {
        seq![v as u16]
    } else {
        let w = (v - 0x1_0000) as u32;
        seq![(0xD800 + w / 0x400) as u16, (0xDC00 + w % 0x400) as u16]
    }
}

/// The UTF-16 units of a text, as `str::encode_utf16` yields them.
pub open spec fn utf16_of(chars: Seq<char>) -> Seq<u16>
    decreases chars.len(),
{
    if chars.len() == 0 {
        Seq::empty()
    } else {
        utf16_of(chars.drop_last()) + utf16_of_char(chars.last())
    }
}

/// The UTF-16 units of `s`.
pub fn utf16_units(s: &str) -> (units: Vec<u16>)
    ensures
        units@ == utf16_of(s@),
{
    broadcast use vstd::string::group_string_axioms;

    let mut units: Vec<u16> = Vec::new();
    for c in it: s.chars()
        invariant
            units@ == utf16_of(it.seq().take(it.index() as int)),
            it.seq() == s@,
    {
        let ghost done = it.seq().take(it.index() as int);
        let v = c as u32;
        if v < 0x1_0000 {
            units.push(v as u16);
        } else {
            let w = v - 0x1_0000;
            units.push((0xD800 + w / 0x400) as u16);
            units.push((0xDC00 + w % 0x400) as u16);
        }
        assert(it.seq().take(it.index() + 1).drop_last() =~= done);
    }
    assert(s@.take(s@.len() as int) =~= s@);
    units
}

} // verus!
