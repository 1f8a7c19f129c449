//! Single bits of bytes, and floats as their 32-bit patterns.
//!
//! A float is handled here as the integer that holds its bits; a bit stands for +1 or -1.
use vstd::prelude::*;

verus! {

/// The bits of +1.
pub const ONE: u32 = 0x3f80_0000;

/// The bits of -1.
pub const MINUS_ONE: u32 = 0xbf80_0000;

/// The bits of positive infinity.
pub const INFINITY: u32 = 0x7f80_0000;

/// Whether bit `k` of a byte is set.
pub open spec fn bit_set(byte: u8, k: int) -> bool {
    (byte >> (k as u8)) & 1 == 1
}

/// Whether the float with these bits is greater than zero (no zero and no NaN is).
pub open spec fn above_zero(bits: u32) -> bool {
    0 < bits <= INFINITY
}

/// Bits of the float that a single bit stands for.
pub open spec fn sign_bits(positive: bool) -> u32 {
    if positive {
        ONE
    } else {
        MINUS_ONE
    }
}

/// Tests bit `k` of a byte.
pub fn test_bit(byte: u8, k: usize) -> (r: bool)
    requires
        k < 8,
    ensures
        r == bit_set(byte, k as int),
{
    (byte >> (k as u8)) & 1 == 1
}

/// The byte with bit `k` set or cleared.
pub fn with_bit(byte: u8, k: usize, on: bool) -> (r: u8)
    requires
        k < 8,
    ensures
        forall|j: int| 0 <= j < 8 ==> #[trigger] bit_set(r, j) == (if j == k { on } else { bit_set(byte, j) }),
{
    let kk: u8 = k as u8;
    let r: u8 = if on { byte | (1u8 << kk) } else { byte & !(1u8 << kk) };
    proof {
        assert forall|j: int| 0 <= j < 8 implies #[trigger] bit_set(r, j) == (if j == k { on } else { bit_set(byte, j) }) by {
            let jj = j as u8;
            assert(((byte | (1u8 << kk)) >> jj) & 1 == (if jj == kk { 1u8 } else { (byte >> jj) & 1 }) && ((byte & !(1u8 << kk)) >> jj) & 1 == (if jj == kk { 0u8 } else { (byte >> jj) & 1 })) by (bit_vector)
                requires
                    jj < 8,
                    kk < 8,
            ;
            assert((byte >> jj) & 1 == 0 || (byte >> jj) & 1 == 1) by (bit_vector);
        }
    }
    r
}

/// No bit of the zero byte is set.
pub proof fn zero_has_no_bit(k: int)
    requires
        0 <= k < 8,
    ensures
        !bit_set(0, k),
{
    let kk = k as u8;
    assert((0u8 >> kk) & 1 == 0) by (bit_vector)
        requires
            kk < 8,
    ;
}

/// Tests whether the float with these bits is greater than zero.
pub fn is_above_zero(bits: u32) -> (r: bool)
    ensures
        r == above_zero(bits),
{
    0 < bits && bits <= INFINITY
}

/// The bits of the float that a single bit stands for.
pub fn sign_value(positive: bool) -> (r: u32)
    ensures
        r == sign_bits(positive),
{
    if positive {
        ONE
    } else {
        MINUS_ONE
    }
}

} // verus!
