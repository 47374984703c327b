//! Real numbers as order keys.
//!
//! A binary64 number that is not a NaN has a sign and a magnitude, and the
//! magnitude's bit pattern grows with the number it stands for. Its order key
//! is that pattern with the sign put in front, as a signed integer. Keys order
//! as the numbers do, equal numbers have equal keys (both zeros have key 0),
//! and a key gives its number back. The library holds every price, R multiple
//! and score this way.
use vstd::prelude::*;

verus! {

/// A price, R multiple or score, as its order key.
pub type Num = i64;

/// The bit that carries a binary64 number's sign.
pub const SIGN_BIT: u64 = 0x8000_0000_0000_0000;

/// The bit pattern of positive infinity: larger magnitudes are NaNs.
pub const INF_BITS: u64 = 0x7ff0_0000_0000_0000;

/// The key of positive infinity.
pub const INF: Num = 0x7ff0_0000_0000_0000;

/// The pattern without its sign.
pub open spec fn magnitude(bits: u64) -> int {
    if bits >= SIGN_BIT {
        bits - SIGN_BIT
    } else {
        bits as int
    }
}

/// Whether the pattern stands for a number at all.
pub open spec fn is_number(bits: u64) -> bool {
    magnitude(bits) <= INF_BITS
}

/// The order key of a pattern.
pub open spec fn key_spec(bits: u64) -> int {
    if bits >= SIGN_BIT {
        -magnitude(bits)
    } else {
        magnitude(bits)
    }
}

/// The order key of a binary64 pattern, none for a NaN.
pub fn key_of_bits(bits: u64) -> (key: Option<Num>)
    ensures
        key is Some <==> is_number(bits),
        key matches Some(k) ==> k == key_spec(bits) && -INF <= k <= INF,
{
    let mag: u64 = if bits >= SIGN_BIT {
        bits - SIGN_BIT
    } else {
        bits
    };
    if mag > INF_BITS {
        None
    } else if bits >= SIGN_BIT {
        Some(-(mag as i64))
    } else {
        Some(mag as i64)
    }
}

/// The binary64 pattern of a key; zero's key gives positive zero.
pub fn bits_of_key(key: Num) -> (bits: u64)
    requires
        -INF <= key <= INF,
    ensures
        is_number(bits),
        key_spec(bits) == key,
        bits != SIGN_BIT,
{
    if key < 0 {
        SIGN_BIT + ((-key) as u64)
    } else {
        key as u64
    }
}

/// Two numbers have the same key exactly when they are the same pattern or
/// are both zero.
pub proof fn law_equal_keys(a: u64, b: u64)
    requires
        is_number(a),
        is_number(b),
    ensures
        key_spec(a) == key_spec(b) <==> (a == b || (magnitude(a) == 0 && magnitude(b) == 0)),
{
}

/// Keys order numbers by sign first; among positive numbers the larger
/// magnitude is the larger key, among negative ones the smaller.
pub proof fn law_key_order(a: u64, b: u64)
    requires
        is_number(a),
        is_number(b),
    ensures
        a < SIGN_BIT && b < SIGN_BIT ==> (key_spec(a) < key_spec(b) <==> magnitude(a) < magnitude(
            b,
        )),
        a >= SIGN_BIT && b >= SIGN_BIT ==> (key_spec(a) < key_spec(b) <==> magnitude(b)
            < magnitude(a)),
        a >= SIGN_BIT && b < SIGN_BIT ==> key_spec(a) <= 0 <= key_spec(b),
{
}

} // verus!
