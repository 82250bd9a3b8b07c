//! Integer order keys for single-precision heights.
//!
//! The routing code compares heights, takes their minima and maxima and sorts by them, and never
//! needs more of a height than its place in the order. A height therefore travels as a key: the
//! integer whose order is the IEEE total order of the height's bit pattern.
use vstd::prelude::*;

verus! {

/// The sign bit of a single-precision bit pattern.
pub const SIGN: u32 = 0x8000_0000;

/// The bit pattern, and the key, of positive infinity.
pub const INFINITY_BITS: u32 = 0x7F80_0000;

/// The magnitude of a bit pattern with its sign, as an integer: patterns with the sign bit count
/// down from zero.
pub open spec fn signed_magnitude(bits: u32) -> int {
    if bits < SIGN {
        bits as int
    } else {
        -(bits - SIGN)
    }
}

/// The key of a bit pattern: its signed magnitude, with the sign bit breaking the tie between the
/// two zeros in favour of the positive one.
pub open spec fn key_of(bits: u32) -> int {
    if bits < SIGN {
        bits as int
    } else {
        -1 - (bits - SIGN)
    }
}

/// The order key of a single-precision bit pattern.
pub fn order_key(bits: u32) -> (key: i32)
    ensures
        key == key_of(bits),
{
    if bits < SIGN {
        bits as i32
    } else {
        -1 - ((bits - SIGN) as i32)
    }
}

/// The bit pattern that has the given order key.
pub fn key_bits(key: i32) -> (bits: u32)
    ensures
        key_of(bits) == key,
{
    if key >= 0 {
        key as u32
    } else {
        SIGN + ((-1 - key) as u32)
    }
}

/// Distinct bit patterns have distinct keys, so a key determines its height.
pub proof fn law_keys_are_distinct(a: u32, b: u32)
    ensures
        key_of(a) == key_of(b) <==> a == b,
{
}

/// Keys order bit patterns by signed magnitude; only the two zeros, which are equal in
/// magnitude, are told apart further.
pub proof fn law_keys_follow_magnitude(a: u32, b: u32)
    ensures
        signed_magnitude(a) < signed_magnitude(b) ==> key_of(a) < key_of(b),
        key_of(a) < key_of(b) ==> signed_magnitude(a) < signed_magnitude(b) || (a == SIGN && b
            == 0),
{
}

} // verus!
