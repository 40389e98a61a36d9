//! Order keys of scores.  A score (a relevance, confidence or weight) is an
//! IEEE-754 single-precision number; the library compares scores by a key
//! made from its bits, so that keys compare as the numbers do (for numbers
//! other than NaN, with negative zero taken as zero).

use vstd::prelude::*;

verus! {

/// The key of the score with these bits: negative numbers have all bits
/// flipped, the others the sign bit set.
pub open spec fn key_of_bits(bits: u32) -> u32 {
    if bits >= 0x8000_0000 {
        !bits
    } else {
        bits | 0x8000_0000
    }
}

/// The bits of the score with this key.
pub open spec fn bits_of_key(key: u32) -> u32 {
    if key >= 0x8000_0000 {
        key & 0x7FFF_FFFF
    } else {
        !key
    }
}

/// The order key of a score from its bits.
pub fn score_key(bits: u32) -> (r: u32)
    ensures
        r == key_of_bits(bits),
{
    if bits >= 0x8000_0000 {
        !bits
    } else {
        bits | 0x8000_0000
    }
}

/// The bits of the score that a key stands for.
pub fn score_bits(key: u32) -> (r: u32)
    ensures
        r == bits_of_key(key),
{
    if key >= 0x8000_0000 {
        key & 0x7FFF_FFFF
    } else {
        !key
    }
}

/// A key gives back the bits it was made from, and every key is made from
/// some bits.
pub proof fn lemma_key_round_trip(bits: u32, key: u32)
    ensures
        bits_of_key(key_of_bits(bits)) == bits,
        key_of_bits(bits_of_key(key)) == key,
{
    assert(bits >= 0x8000_0000 ==> !bits < 0x8000_0000 && !(!bits) == bits) by (bit_vector);
    assert(bits < 0x8000_0000 ==> (bits | 0x8000_0000) >= 0x8000_0000 && ((bits | 0x8000_0000) & 0x7FFF_FFFF) == bits) by (bit_vector);
    assert(key >= 0x8000_0000 ==> (key & 0x7FFF_FFFF) < 0x8000_0000 && ((key & 0x7FFF_FFFF) | 0x8000_0000) == key) by (bit_vector);
    assert(key < 0x8000_0000 ==> !key >= 0x8000_0000 && !(!key) == key) by (bit_vector);
}

/// The key of a zero score (the bits of `0.0`).
pub const ZERO_SCORE_KEY: u32 = 0x8000_0000;

/// The key of the score `1.0` (bits `0x3F80_0000`).
pub const ONE_SCORE_KEY: u32 = 0xBF80_0000;

/// The key of the score `-1.0` (bits `0xBF80_0000`).
pub const MINUS_ONE_SCORE_KEY: u32 = 0x407F_FFFF;

/// The key of the score `0.5` (bits `0x3F00_0000`).
pub const HALF_SCORE_KEY: u32 = 0xBF00_0000;

} // verus!
