//! Attributes of media types that hold two numbers in one: a frame size is its
//! width and height, a ratio its numerator and denominator.
use vstd::prelude::*;

verus! {

/// Packs two numbers into one, `high` in the upper half.
pub fn pack_u64(high: u32, low: u32) -> (packed: u64)
    ensures
        packed == high * 0x1_0000_0000 + low,
{
    assert(((high as u64) << 32) | (low as u64) == high * 0x1_0000_0000 + low) by (bit_vector);
    ((high as u64) << 32) | (low as u64)
}

/// The two numbers in a packed one, the upper half first.
pub fn unpack_u64(packed: u64) -> (halves: (u32, u32))
    ensures
        halves.0 == packed / 0x1_0000_0000,
        halves.1 == packed % 0x1_0000_0000,
{
    assert(packed >> 32 == packed / 0x1_0000_0000) by (bit_vector);
    assert(packed & 0xFFFF_FFFF == packed % 0x1_0000_0000) by (bit_vector);
    ((packed >> 32) as u32, (packed & 0xFFFF_FFFF) as u32)
}

/// Packed numbers unpack to themselves: the quotient and the remainder of
/// [`pack_u64`]'s result are what [`unpack_u64`] returns.
pub proof fn packed_numbers_unpack(high: u32, low: u32)
    ensures
        (high * 0x1_0000_0000 + low) / 0x1_0000_0000 == high,
        (high * 0x1_0000_0000 + low) % 0x1_0000_0000 == low,
{
}

} // verus!
