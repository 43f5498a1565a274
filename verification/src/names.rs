//! The obfuscated names of a build, looked up in its map.
//!
//! The SWF renames every property. The map of a build holds, under the clear
//! name of each property, the name the build gives it: `"world": "]=[]8"`. A
//! name is looked up by its clear name, and its text is where the map says.
use vstd::prelude::*;
use vstd::string::StringSliceAdditionalSpecFns;

verus! {

/// `"`, `\`, `:`, and the blanks a map may hold between its tokens.
pub const QUOTE: u8 = 0x22;
pub const BACKSLASH: u8 = 0x5c;
pub const COLON: u8 = 0x3a;

/// A blank between two tokens: space, tab, line feed, carriage return.
pub open spec fn is_blank(b: u8) -> bool {
    b == 0x20 || b == 0x09 || b == 0x0a || b == 0x0d
}

/// The first position from `i` on that is not a blank.
pub open spec fn past_blanks(m: Seq<u8>, i: int) -> int
    decreases m.len() - i,
{
    if i < 0 || i >= m.len() || !is_blank(m[i]) {
        i
    } else {
        past_blanks(m, i + 1)
    }
}

/// The first quote from `i` on, when no backslash comes before it.
pub open spec fn closing_quote(m: Seq<u8>, i: int) -> Option<int>
    decreases m.len() - i,
{
    if i < 0 || i >= m.len() || m[i] == BACKSLASH {
        None
    } else if m[i] == QUOTE {
        Some(i)
    } else {
        closing_quote(m, i + 1)
    }
}

/// Does the map hold, at `i`, the clear name `c` as a quoted key, followed by
/// a colon and a quoted value? Then where the text of the value starts and
/// ends.
pub open spec fn entry_at(m: Seq<u8>, c: Seq<u8>, i: int) -> Option<(int, int)> {
    let after = i + c.len() + 2;
    if 0 <= i && after <= m.len() && m[i] == QUOTE && m.subrange(i + 1, i + 1 + c.len()) == c
        && m[i + 1 + c.len()] == QUOTE {
        let colon = past_blanks(m, after);
        if colon < m.len() && m[colon] == COLON {
            let open = past_blanks(m, colon + 1);
            if open < m.len() && m[open] == QUOTE {
                match closing_quote(m, open + 1) {
                    Some(close) => Some((open + 1, close)),
                    None => None,
                }
            } else {
                None
            }
        } else {
            None
        }
    } else {
        None
    }
}

/// The first entry of `c` in the map, from `i` on.
pub open spec fn first_entry(m: Seq<u8>, c: Seq<u8>, i: int) -> Option<(int, int)>
    decreases m.len() - i,
{
    if i < 0 || i >= m.len() {
        None
    } else {
        match entry_at(m, c, i) {
            Some(span) => Some(span),
            None => first_entry(m, c, i + 1),
        }
    }
}

fn skip_blanks(m: &[u8], i: usize) -> (j: usize)
    requires
        i <= m@.len(),
    ensures
        j == past_blanks(m@, i as int),
        i <= j <= m@.len(),
{
    let mut j = i;
    while j < m.len() && (m[j] == 0x20 || m[j] == 0x09 || m[j] == 0x0a || m[j] == 0x0d)
        invariant
            i <= j <= m@.len(),
            past_blanks(m@, i as int) == past_blanks(m@, j as int),
        decreases m@.len() - j,
    {
        j = j + 1;
    }
    j
}

fn find_closing_quote(m: &[u8], i: usize) -> (r: Option<usize>)
    requires
        i <= m@.len(),
    ensures
        r == (match closing_quote(m@, i as int) {
            Some(k) => Some(k as usize),
            None => None::<usize>,
        }),
        r matches Some(k) ==> i <= k < m@.len(),
{
    let mut k = i;
    while k < m.len()
        invariant
            i <= k <= m@.len(),
            closing_quote(m@, i as int) == closing_quote(m@, k as int),
        decreases m@.len() - k,
    {
        if m[k] == BACKSLASH {
            return None;
        }
        if m[k] == QUOTE {
            return Some(k);
        }
        k = k + 1;
    }
    None
}

fn entry_here(m: &[u8], c: &[u8], i: usize) -> (r: Option<(usize, usize)>)
    requires
        i < m@.len(),
    ensures
        r == (match entry_at(m@, c@, i as int) {
            Some((s, e)) => Some((s as usize, e as usize)),
            None => None::<(usize, usize)>,
        }),
        r matches Some((s, e)) ==> s <= e <= m@.len(),
{
    let n = m.len();
    if c.len() > n || n - c.len() < 2 || i > n - c.len() - 2 {
        return None;
    }
    if m[i] != QUOTE {
        return None;
    }
    let mut k: usize = 0;
    while k < c.len()
        invariant
            n == m@.len(),
            i + c@.len() + 2 <= n,
            k <= c@.len(),
            forall|j: int| 0 <= j < k ==> m@[i + 1 + j] == c@[j],
        decreases c@.len() - k,
    {
        if m[i + 1 + k] != c[k] {
            assert(m@.subrange(i + 1, i + 1 + c@.len())[k as int] != c@[k as int]);
            return None;
        }
        k = k + 1;
    }
    assert(m@.subrange(i + 1, i + 1 + c@.len()) =~= c@);
    if m[i + 1 + c.len()] != QUOTE {
        return None;
    }
    let colon = skip_blanks(m, i + c.len() + 2);
    if colon >= n || m[colon] != COLON {
        return None;
    }
    let open = skip_blanks(m, colon + 1);
    if open >= n || m[open] != QUOTE {
        return None;
    }
    match find_closing_quote(m, open + 1) {
        Some(close) => Some((open + 1, close)),
        None => None,
    }
}

/// Where the map holds the name of the property whose clear name is
/// `clear`: the first entry of it, as the start and the end of its text.
/// Nothing when the map has no entry of it, or when the name holds an escape.
pub fn named_in(map: &str, clear: &str) -> (r: Option<(usize, usize)>)
    ensures
        r == (match first_entry(map.spec_bytes(), clear.spec_bytes(), 0) {
            Some((s, e)) => Some((s as usize, e as usize)),
            None => None::<(usize, usize)>,
        }),
        r matches Some((s, e)) ==> s <= e <= map.spec_bytes().len(),
{
    let m = map.as_bytes();
    let c = clear.as_bytes();
    let mut i: usize = 0;
    while i < m.len()
        invariant
            m@ == map.spec_bytes(),
            c@ == clear.spec_bytes(),
            i <= m@.len(),
            first_entry(m@, c@, 0) == first_entry(m@, c@, i as int),
        decreases m@.len() - i,
    {
        if let Some(span) = entry_here(m, c, i) {
            return Some(span);
        }
        i = i + 1;
    }
    None
}

} // verus!
