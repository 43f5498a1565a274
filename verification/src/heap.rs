//! The AVM1 object graph, as the Hammerfest strategy sees it.
//!
//! A Flash player keeps objects, their properties and their values in a
//! layout of its own. The strategy that finds and reads the game only needs to
//! ask two things: what a property holds, and which object a reference leads
//! to. Each player answers in its own way.
use vstd::arithmetic::power2::{lemma2_to64, lemma_pow2_pos, lemma_pow2_strictly_increases, pow2};
use vstd::bits::{
    low_bits_mask, lemma_u64_low_bits_mask_is_mod, lemma_u64_shl_is_mul, lemma_u64_shr_is_div,
};
use vstd::prelude::*;

verus! {

/// An object whose properties can be read.
///
/// What the address is -- a property table, a garbage collected cell -- is
/// the business of the heap that gave it.
#[derive(Copy, Clone, Debug, PartialEq, Eq, Structural)]
pub struct Object(pub u64);

/// What a property holds when it points at an object.
///
/// It is not an [`Object`] yet: following it costs reads, so the strategy
/// follows only the references it needs.
#[derive(Copy, Clone, Debug, PartialEq, Eq, Structural)]
pub struct ObjectReference(pub u64);

/// What a property holds when it is a string. It is compared, never copied.
#[derive(Copy, Clone, Debug, PartialEq, Eq, Structural)]
pub struct StringReference(pub u64);

/// Where a property sat the last time it was read.
///
/// Finding a property from scratch walks its object. The slot makes the next
/// read one look, and it is checked before it is trusted.
#[derive(Copy, Clone, Debug, PartialEq, Eq, Structural)]
pub struct Slot(pub u64);

impl Default for Slot {
    fn default() -> (s: Slot)
        ensures
            s == Slot(0),
    {
        Slot(0)
    }
}

/// A number, as a Flash player stores it: an integer atom of Pepper Flash, or
/// the 64 bits of an IEEE 754 double.
///
/// Every number of ActionScript is a double. An integer atom stands for the
/// double nearest to it.
#[derive(Copy, Clone, Debug, PartialEq, Eq, Structural)]
pub enum Number {
    Int(i64),
    Double(u64),
}

/// A value, whatever player holds it.
#[derive(Copy, Clone, Debug, PartialEq, Eq, Structural)]
pub enum Value {
    Undefined,
    Null,
    Bool(bool),
    Number(Number),
    String(StringReference),
    Object(ObjectReference),
    /// Anything the strategy never reads: a clip, a native object.
    Other,
}

pub const SIGN_BIT: u64 = 0x8000_0000_0000_0000;
/// One unit in the exponent field of a double.
pub const EXPONENT_UNIT: u64 = 0x10_0000_0000_0000;
/// The exponent of a double whose integer significand is its value.
pub const EXPONENT_BIAS: u64 = 1075;

/// A magnitude with a sign.
pub open spec fn with_sign(negative: bool, magnitude: int) -> int {
    if negative {
        -magnitude
    } else {
        magnitude
    }
}

/// The integer a saturating cast to `i64` gives a whole magnitude of at most
/// 2^63, when the cast back to a double gives the same number.
pub open spec fn saturated(negative: bool, magnitude: int) -> Option<i64> {
    if magnitude < 0x8000_0000_0000_0000 {
        Some(with_sign(negative, magnitude) as i64)
    } else if magnitude == 0x8000_0000_0000_0000 {
        Some(
            if negative {
                i64::MIN
            } else {
                i64::MAX
            },
        )
    } else {
        None
    }
}

/// The whole number a double holds: `None` for a fraction, an infinity, a
/// NaN, or a number beyond 2^63.
pub open spec fn double_whole(bits: u64) -> Option<i64> {
    let negative = bits >= SIGN_BIT;
    let exponent = (bits / EXPONENT_UNIT) % 0x800;
    let fraction = bits % EXPONENT_UNIT;
    if exponent == 0x7ff {
        None
    } else if exponent == 0 {
        if fraction == 0 {
            Some(0)
        } else {
            None
        }
    } else {
        let significand = fraction + EXPONENT_UNIT;
        if exponent >= EXPONENT_BIAS {
            saturated(negative, significand * pow2((exponent - EXPONENT_BIAS) as nat))
        } else {
            let d = pow2((EXPONENT_BIAS - exponent) as nat) as int;
            if significand % d == 0 {
                saturated(negative, significand / d)
            } else {
                None
            }
        }
    }
}

/// The number of binary digits of `a`.
pub open spec fn bit_length(a: nat) -> nat
    decreases a,
{
    if a == 0 {
        0
    } else {
        1 + bit_length(a / 2)
    }
}

/// `a` rounded to 53 significant bits, half to even: the magnitude of the
/// double nearest to `a`.
pub open spec fn rounded(a: nat) -> nat {
    if bit_length(a) <= 53 {
        a
    } else {
        let d = pow2((bit_length(a) - 53) as nat);
        let q = a / d;
        let r = a % d;
        if 2 * r > d || (2 * r == d && q % 2 == 1) {
            ((q + 1) * d) as nat
        } else {
            (q * d) as nat
        }
    }
}

/// The whole number an integer atom gives through the double nearest to it.
pub open spec fn int_whole(i: i64) -> Option<i64> {
    saturated(i < 0, rounded((if i < 0 { -(i as int) } else { i as int }) as nat) as int)
}

/// The whole number a number holds.
pub open spec fn whole_of(n: Number) -> Option<i64> {
    match n {
        Number::Int(i) => int_whole(i),
        Number::Double(bits) => double_whole(bits),
    }
}

proof fn lemma_bit_length_bound(a: nat, n: nat)
    requires
        a < pow2(n),
    ensures
        bit_length(a) <= n,
    decreases n,
{
    lemma2_to64();
    if n == 0 {
        assert(a == 0);
    } else if a > 0 {
        vstd::arithmetic::power2::lemma_pow2_unfold(n);
        lemma_bit_length_bound(a / 2, (n - 1) as nat);
    }
}

proof fn lemma_bit_length_low(a: nat)
    requires
        a > 0,
    ensures
        pow2((bit_length(a) - 1) as nat) <= a < pow2(bit_length(a)),
    decreases a,
{
    vstd::arithmetic::power2::lemma_pow2_unfold(bit_length(a));
    if a / 2 > 0 {
        lemma_bit_length_low(a / 2);
        vstd::arithmetic::power2::lemma_pow2_unfold((bit_length(a) - 1) as nat);
    } else {
        assert(bit_length(a / 2) == 0);
        lemma2_to64();
    }
}

/// The number of binary digits of `a`.
pub(crate) fn bit_length_of(a: u128) -> (n: u32)
    ensures
        n == bit_length(a as nat),
        n <= 128,
{
    proof {
        lemma2_to64();
        vstd::arithmetic::power2::lemma2_to64_rest();
        vstd::arithmetic::power2::lemma_pow2_adds(64, 64);
        lemma_bit_length_bound(a as nat, 128);
    }
    let mut n: u32 = 0;
    let mut rest: u128 = a;
    while rest > 0
        invariant
            bit_length(a as nat) <= 128,
            bit_length(a as nat) == n + bit_length(rest as nat),
        decreases rest,
    {
        rest = rest / 2;
        n = n + 1;
    }
    n
}

/// Two to the power `k`.
pub(crate) fn pow2_of(k: u32) -> (d: u128)
    requires
        k < 127,
    ensures
        d == pow2(k as nat),
{
    proof {
        lemma2_to64();
        vstd::arithmetic::power2::lemma2_to64_rest();
        vstd::arithmetic::power2::lemma_pow2_adds(64, 62);
        assert(pow2(62) == 0x4000_0000_0000_0000);
    }
    let mut d: u128 = 1;
    let mut i: u32 = 0;
    while i < k
        invariant
            i <= k < 127,
            d == pow2(i as nat),
            pow2(126) == 0x4000_0000_0000_0000_0000_0000_0000_0000,
        decreases k - i,
    {
        proof {
            vstd::arithmetic::power2::lemma_pow2_unfold((i + 1) as nat);
            if i + 1 < 126 {
                lemma_pow2_strictly_increases((i + 1) as nat, 126);
            }
        }
        d = d * 2;
        i = i + 1;
    }
    d
}

/// `a` rounded to 53 significant bits, half to even.
pub(crate) fn round53(a: u128) -> (r: u128)
    requires
        a < 0x100_0000_0000_0000_0000,
    ensures
        r == rounded(a as nat),
        r <= 2 * a,
{
    let len = bit_length_of(a);
    if len <= 53 {
        return a;
    }
    proof {
        lemma2_to64();
        vstd::arithmetic::power2::lemma2_to64_rest();
        vstd::arithmetic::power2::lemma_pow2_adds(64, 8);
        lemma_bit_length_bound(a as nat, 72);
        lemma_bit_length_low(a as nat);
    }
    let k = len - 53;
    let d = pow2_of(k);
    let q = a / d;
    let r = a % d;
    proof {
        lemma_pow2_pos(k as nat);
        vstd::arithmetic::power2::lemma_pow2_adds(k as nat, 52);
        if k < 19 {
            lemma_pow2_strictly_increases(k as nat, 19);
        }
        assert(pow2(19) == 0x8_0000);
        vstd::arithmetic::div_mod::lemma_fundamental_div_mod(a as int, d as int);
        assert(d <= a) by (nonlinear_arith)
            requires
                pow2((k + 52) as nat) == d * pow2(52),
                pow2(52) >= 1,
                pow2((len - 1) as nat) <= a,
                len - 1 == k + 52,
                d > 0,
        ;
    }
    if 2 * r > d || (2 * r == d && q % 2 == 1) {
        assert((q + 1) * d <= 2 * a) by (nonlinear_arith)
            requires
                a == d * q + r,
                0 <= r < d,
                d <= a,
        ;
        (q + 1) * d
    } else {
        assert(q * d <= a) by (nonlinear_arith)
            requires
                a == d * q + r,
                0 <= r,
        ;
        q * d
    }
}

/// The whole number in a double, read from its bits.
fn double_to_whole(bits: u64) -> (r: Option<i64>)
    ensures
        r == double_whole(bits),
{
    let negative = bits >= SIGN_BIT;
    let exponent = (bits >> 52) & 0x7ff;
    let fraction = bits & 0xf_ffff_ffff_ffff;
    assert((bits >> 52) & 0x7ff == (bits / 0x10_0000_0000_0000) % 0x800) by (bit_vector);
    assert(bits & 0xf_ffff_ffff_ffff == bits % 0x10_0000_0000_0000) by (bit_vector);
    if exponent == 0x7ff {
        return None;
    }
    if exponent == 0 {
        return if fraction == 0 {
            Some(0)
        } else {
            None
        };
    }
    let significand = fraction | 0x10_0000_0000_0000;
    assert(fraction < 0x10_0000_0000_0000 ==> fraction | 0x10_0000_0000_0000 == fraction
        + 0x10_0000_0000_0000) by (bit_vector);
    proof {
        lemma2_to64();
    }
    if exponent >= EXPONENT_BIAS {
        let shift = exponent - EXPONENT_BIAS;
        if shift > 11 {
            proof {
                lemma_pow2_strictly_increases(11, shift as nat);
                assert(significand * pow2(shift as nat) > 0x8000_0000_0000_0000) by (nonlinear_arith)
                    requires
                        significand >= 0x10_0000_0000_0000,
                        pow2(shift as nat) > 2048,
                ;
            }
            return None;
        }
        if shift == 11 {
            assert(pow2(11) == 2048);
            assert(significand > 0x10_0000_0000_0000 ==> significand * 2048 > 0x8000_0000_0000_0000)
                by (nonlinear_arith);
            if significand == 0x10_0000_0000_0000 {
                return Some(
                    if negative {
                        i64::MIN
                    } else {
                        i64::MAX
                    },
                );
            }
            return None;
        }
        proof {
            if shift < 10 {
                lemma_pow2_strictly_increases(shift as nat, 10);
            }
            assert(pow2(10) == 1024);
            assert(significand * pow2(shift as nat) < 0x8000_0000_0000_0000) by (nonlinear_arith)
                requires
                    significand < 0x20_0000_0000_0000,
                    pow2(shift as nat) <= 1024,
            ;
            lemma_u64_shl_is_mul(significand, shift);
        }
        let magnitude = significand << shift;
        return Some(
            if negative {
                -(magnitude as i64)
            } else {
                magnitude as i64
            },
        );
    }
    let right = EXPONENT_BIAS - exponent;
    if right >= 64 {
        proof {
            lemma_pow2_strictly_increases(63, right as nat);
            vstd::arithmetic::power2::lemma2_to64_rest();
            assert(significand < pow2(right as nat));
            vstd::arithmetic::div_mod::lemma_small_mod(
                significand as nat,
                pow2(right as nat),
            );
        }
        return None;
    }
    proof {
        lemma_pow2_pos(right as nat);
        vstd::bits::lemma_u64_pow2_no_overflow(right as nat);
        lemma_u64_shl_is_mul(1, right);
        lemma_u64_low_bits_mask_is_mod(significand, right as nat);
        vstd::bits::lemma_low_bits_mask_unfold(right as nat);
        lemma_u64_shr_is_div(significand, right);
    }
    let unit: u64 = 1u64 << right;
    let mask = unit - 1;
    assert(mask == low_bits_mask(right as nat) as u64);
    if significand & mask != 0 {
        return None;
    }
    let magnitude = significand >> right;
    proof {
        vstd::arithmetic::div_mod::lemma_div_is_ordered(
            significand as int,
            0x20_0000_0000_0000,
            pow2(right as nat) as int,
        );
        assert(0x20_0000_0000_0000int / (pow2(right as nat) as int) <= 0x20_0000_0000_0000);
    }
    Some(
        if negative {
            -(magnitude as i64)
        } else {
            magnitude as i64
        },
    )
}

/// The double nearest to an integer, as the whole number it holds.
fn int_to_whole(i: i64) -> (r: Option<i64>)
    ensures
        r == int_whole(i),
{
    let negative = i < 0;
    let a: u128 = if negative {
        (0 - (i as i128)) as u128
    } else {
        i as u128
    };
    let m = round53(a);
    if m < 0x8000_0000_0000_0000 {
        let v = m as i64;
        Some(
            if negative {
                -v
            } else {
                v
            },
        )
    } else if m == 0x8000_0000_0000_0000 {
        Some(
            if negative {
                i64::MIN
            } else {
                i64::MAX
            },
        )
    } else {
        None
    }
}

impl Value {
    pub fn as_bool(self) -> (r: Option<bool>)
        ensures
            r == (match self {
                Value::Bool(b) => Some(b),
                _ => None,
            }),
    {
        match self {
            Value::Bool(value) => Some(value),
            _ => None,
        }
    }

    pub fn as_number(self) -> (r: Option<Number>)
        ensures
            r == (match self {
                Value::Number(n) => Some(n),
                _ => None,
            }),
    {
        match self {
            Value::Number(value) => Some(value),
            _ => None,
        }
    }

    /// The number, when it is a whole one.
    ///
    /// A level, a timer counted in frames: the game writes them as integers.
    /// A number with a fraction there is not the property we think it is. A
    /// whole number survives the trip through an integer; a fraction, an
    /// infinity or a NaN does not.
    pub fn as_whole_number(self) -> (r: Option<i64>)
        ensures
            r == (match self {
                Value::Number(n) => whole_of(n),
                _ => None,
            }),
    {
        match self {
            Value::Number(Number::Int(i)) => int_to_whole(i),
            Value::Number(Number::Double(bits)) => double_to_whole(bits),
            _ => None,
        }
    }

    pub fn as_string(self) -> (r: Option<StringReference>)
        ensures
            r == (match self {
                Value::String(s) => Some(s),
                _ => None,
            }),
    {
        match self {
            Value::String(string) => Some(string),
            _ => None,
        }
    }

    pub fn as_object(self) -> (r: Option<ObjectReference>)
        ensures
            r == (match self {
                Value::Object(o) => Some(o),
                _ => None,
            }),
    {
        match self {
            Value::Object(reference) => Some(reference),
            _ => None,
        }
    }
}

} // verus!
