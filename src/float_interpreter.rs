//! Manual decoding of IEEE 754 single-precision bit patterns.
//!
//! A pattern is split into its sign (bit 31), characteristic (bits 23 to 30)
//! and mantissa (bits 0 to 22). A finite result is given exactly, as
//! `significand * 2^exponent` with a sign, so that no rounding takes place.
use vstd::prelude::*;

verus! {

/// What a single-precision bit pattern denotes.
#[derive(Debug, Clone, Copy, PartialEq, Eq, Structural)]
pub enum Interpretation {
    /// Positive or negative zero.
    Zero { negative: bool },
    /// The nonzero value `significand * 2^exponent`, negated when `negative` holds.
    Finite { negative: bool, significand: u32, exponent: i32 },
    /// Positive or negative infinity.
    Infinity { negative: bool },
    /// Not a number; the payload bits are not kept.
    NotANumber,
}

/// Width of the mantissa field.
pub const MANTISSA_BITS: u32 = 23;

/// The characteristic of infinities and NaNs.
pub const MAX_CHARACTERISTIC: u32 = 255;

/// Exponent of the last mantissa bit of a subnormal value.
pub const SUBNORMAL_EXPONENT: i32 = -149;

/// Characteristic minus this is the exponent of the last mantissa bit of a normal value.
pub const NORMAL_EXPONENT_OFFSET: i32 = 150;

/// The implicit leading bit of a normal value, at the scale of the mantissa.
pub const HIDDEN_BIT: u32 = 0x80_0000;

/// The sign bit, bit 31: set for a negative value.
pub open spec fn sign_of(bits: u32) -> bool {
    bits >> 31u32 == 1
}

/// The biased exponent, bits 23 to 30.
pub open spec fn characteristic_of(bits: u32) -> u32 {
    (bits >> 23u32) & 0xffu32
}

/// The fraction, bits 0 to 22.
pub open spec fn mantissa_of(bits: u32) -> u32 {
    bits & 0x7f_ffffu32
}

/// The meaning of a bit pattern under IEEE 754 single precision.
pub open spec fn decode(bits: u32) -> Interpretation {
    let negative = sign_of(bits);
    let c = characteristic_of(bits);
    let m = mantissa_of(bits);
    if c == 0 && m == 0 {
        Interpretation::Zero { negative }
    } else if c == 0 {
        Interpretation::Finite { negative, significand: m, exponent: -149i32 }
    } else if c == 255 && m == 0 {
        Interpretation::Infinity { negative }
    } else if c == 255 {
        Interpretation::NotANumber
    } else {
        Interpretation::Finite {
            negative,
            significand: (m + 0x80_0000) as u32,
            exponent: (c - 150) as i32,
        }
    }
}

proof fn lemma_field_bounds(bits: u32)
    ensures
        characteristic_of(bits) <= 255,
        mantissa_of(bits) < 0x80_0000,
{
    assert((bits >> 23u32) & 0xffu32 <= 255) by (bit_vector);
    assert(bits & 0x7f_ffffu32 < 0x80_0000) by (bit_vector);
}

/// One step of the accumulation: the multiples of `2^k` below `m` gain bit `k` of `m`.
proof fn lemma_accumulate_step(m: u32, k: u32)
    requires
        k < 23,
    ensures
        (m >> k) << k == ((m >> (k + 1)) << (k + 1)) + (if (m >> k) & 1 == 1 {
            1u32 << k
        } else {
            0u32
        }),
        (1u32 << (k + 1)) / 2 == 1u32 << k,
{
    assert((m >> k) << k == ((m >> (k + 1)) << (k + 1)) + (if (m >> k) & 1 == 1 {
        1u32 << k
    } else {
        0u32
    })) by (bit_vector)
        requires
            k < 23,
    ;
    assert((1u32 << (k + 1)) / 2 == 1u32 << k) by (bit_vector)
        requires
            k < 23,
    ;
}

/// Decodes a single-precision bit pattern by hand.
///
/// A finite value is accumulated as the IEEE 754 rule states it: starting from
/// the leading power of two (none for a subnormal), each mantissa bit from the
/// most significant down adds the next halved power of two.
pub fn interpret_single(float: u32) -> (r: Interpretation)
    ensures
        r == decode(float),
{
    let negative = float >> 31 == 1;
    let characteristic = (float >> 23) & 0xff;
    let mantissa = float & 0x7f_ffff;
    proof {
        lemma_field_bounds(float);
    }
    if characteristic == 0 && mantissa == 0 {
        return Interpretation::Zero { negative };
    }
    if characteristic == MAX_CHARACTERISTIC {
        if mantissa != 0 {
            return Interpretation::NotANumber;
        } else {
            return Interpretation::Infinity { negative };
        }
    }
    // Both counted in units of the last mantissa bit.
    let mut power: u32 = HIDDEN_BIT;
    let mut value: u32 = if characteristic != 0 {
        power
    } else {
        0
    };
    let ghost lead = value;
    let mut idx: u32 = 0;
    assert((mantissa >> 23u32) << 23u32 == 0) by (bit_vector)
        requires
            mantissa == float & 0x7f_ffffu32,
    ;
    assert(1u32 << 23u32 == 0x80_0000) by (bit_vector);
    while idx < MANTISSA_BITS
        invariant
            idx <= 23,
            lead <= 0x80_0000,
            mantissa < 0x80_0000,
            power == 1u32 << (23 - idx) as u32,
            value == lead + ((mantissa >> (23 - idx) as u32) << (23 - idx) as u32),
        decreases 23 - idx,
    {
        let k: u32 = MANTISSA_BITS - 1 - idx;
        proof {
            lemma_accumulate_step(mantissa, k);
            assert((mantissa >> k) << k <= mantissa) by (bit_vector);
        }
        let digit = (mantissa >> k) & 1;
        power = power / 2;
        if digit == 1 {
            value = value + power;
        }
        idx = idx + 1;
    }
    assert((mantissa >> 0u32) << 0u32 == mantissa) by (bit_vector);
    let exponent: i32 = if characteristic != 0 {
        characteristic as i32 - NORMAL_EXPONENT_OFFSET
    } else {
        SUBNORMAL_EXPONENT
    };
    Interpretation::Finite { negative, significand: value, exponent }
}

/// Interpreting a bit pattern is a function of the pattern alone: two
/// interpretations of the same pattern agree.
pub proof fn lemma_interpretation_is_deterministic(bits: u32, first: Interpretation, second: Interpretation)
    requires
        first == decode(bits),
        second == decode(bits),
    ensures
        first == second,
{
}

/// Apart from NaN payloads no information is lost: distinct patterns that are
/// not NaN have distinct interpretations.
pub proof fn lemma_distinct_patterns_decode_apart(a: u32, b: u32)
    requires
        a != b,
        !(decode(a) is NotANumber),
        !(decode(b) is NotANumber),
    ensures
        decode(a) != decode(b),
{
    lemma_field_bounds(a);
    lemma_field_bounds(b);
    assert(a >> 31u32 == 0 || a >> 31u32 == 1) by (bit_vector);
    assert(b >> 31u32 == 0 || b >> 31u32 == 1) by (bit_vector);
    assert((a >> 31u32 == b >> 31u32 && (a >> 23u32) & 0xffu32 == (b >> 23u32) & 0xffu32 && a
        & 0x7f_ffffu32 == b & 0x7f_ffffu32) ==> a == b) by (bit_vector);
}

} // verus!
