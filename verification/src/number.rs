//! Real numbers, as far as the library reads them.
//!
//! A real number is a binary64 number, handled here by its 64 bits: a sign
//! bit above a 63-bit magnitude. Of two numbers the one with the smaller
//! signed magnitude is the smaller, the two zeros are equal, and a magnitude
//! above that of infinity is no number at all. Numbers are compared by their
//! keys, unsigned integers in the order of the signed magnitudes.

use vstd::prelude::*;

verus! {

/// The sign bit.
pub const SIGN_BIT: u64 = 0x8000_0000_0000_0000;

/// The bits of zero.
pub const ZERO: u64 = 0;

/// The bits of one.
pub const ONE: u64 = 0x3ff0_0000_0000_0000;

/// The bits of infinity, the largest magnitude of a number.
pub const INFINITY: u64 = 0x7ff0_0000_0000_0000;

/// The bits below the sign bit.
pub open spec fn magnitude(bits: u64) -> int {
    if bits >= SIGN_BIT {
        bits - SIGN_BIT
    } else {
        bits as int
    }
}

/// Whether the bits are those of no number.
pub open spec fn is_nan(bits: u64) -> bool {
    magnitude(bits) > INFINITY
}

/// The magnitude with its sign. Both zeros have the signed magnitude zero.
pub open spec fn signed_magnitude(bits: u64) -> int {
    if bits >= SIGN_BIT {
        -magnitude(bits)
    } else {
        magnitude(bits)
    }
}

/// The key of a number: the signed magnitudes in their order, moved into the
/// unsigned integers.
pub open spec fn key_of(bits: u64) -> u64 {
    (SIGN_BIT + signed_magnitude(bits)) as u64
}

/// A key held to the keys of zero and one.
pub open spec fn clamp_unit(key: u64) -> u64 {
    if key < key_of(ZERO) {
        key_of(ZERO)
    } else if key > key_of(ONE) {
        key_of(ONE)
    } else {
        key
    }
}

/// Keys are ordered as the signed magnitudes are, and equal where those are.
pub proof fn lemma_key_order(a: u64, b: u64)
    ensures
        key_of(a) < key_of(b) <==> signed_magnitude(a) < signed_magnitude(b),
        key_of(a) == key_of(b) <==> signed_magnitude(a) == signed_magnitude(b),
{
}

/// The two zeros share the key in the middle; one lies above it.
pub proof fn lemma_unit_keys()
    ensures
        key_of(ZERO) == SIGN_BIT,
        key_of(SIGN_BIT) == SIGN_BIT,
        key_of(ONE) == 0xbff0_0000_0000_0000,
{
}

/// Whether the bits are those of no number.
pub fn is_nan_bits(bits: u64) -> (nan: bool)
    ensures
        nan == is_nan(bits),
{
    if bits >= SIGN_BIT {
        bits - SIGN_BIT > INFINITY
    } else {
        bits > INFINITY
    }
}

/// The key of a number.
pub fn key_of_bits(bits: u64) -> (key: u64)
    ensures
        key == key_of(bits),
{
    if bits >= SIGN_BIT {
        SIGN_BIT - (bits - SIGN_BIT)
    } else {
        SIGN_BIT + bits
    }
}

/// The key of a number, held to the keys of zero and one.
pub fn unit_key_of_bits(bits: u64) -> (key: u64)
    ensures
        key == clamp_unit(key_of(bits)),
{
    let key = key_of_bits(bits);
    let low = key_of_bits(ZERO);
    let high = key_of_bits(ONE);
    if key < low {
        low
    } else if key > high {
        high
    } else {
        key
    }
}

} // verus!
