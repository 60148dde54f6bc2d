//! Reading single bits and big-endian numbers out of bytes.

use vstd::prelude::*;

verus! {

/// The bit of `byte` whose place value is `weight` is set. `weight` is a power
/// of two: 1 for the lowest bit, 128 for the highest.
pub open spec fn spec_bit_set(byte: u8, weight: int) -> bool
    recommends
        weight == 1 || weight == 2 || weight == 4 || weight == 8 || weight == 16 || weight == 32
            || weight == 64 || weight == 128,
{
    byte as int / weight % 2 == 1
}

/// The number that four bytes stand for, most significant byte first.
pub open spec fn spec_be_u32(bytes: Seq<u8>) -> nat
    recommends
        bytes.len() == 4,
{
    (bytes[0] * 0x100_0000 + bytes[1] * 0x1_0000 + bytes[2] * 0x100 + bytes[3]) as nat
}

/// Whether the highest bit of `byte` is set.
pub fn top_bit_set(byte: u8) -> (set: bool)
    ensures
        set == spec_bit_set(byte, 128),
{
    assert((byte & 0b1000_0000 == 0b1000_0000) == (byte / 128 % 2 == 1)) by (bit_vector);
    byte & 0b1000_0000 == 0b1000_0000
}

/// Reads four bytes as one number, most significant byte first.
pub fn u32_from_be_bytes(bytes: [u8; 4]) -> (value: u32)
    ensures
        value == spec_be_u32(bytes@),
{
    let b0: u8 = bytes[0];
    let b1: u8 = bytes[1];
    let b2: u8 = bytes[2];
    let b3: u8 = bytes[3];
    let value: u32 = (b0 as u32) << 24 | (b1 as u32) << 16 | (b2 as u32) << 8 | (b3 as u32);
    assert(value == b0 * 0x100_0000 + b1 * 0x1_0000 + b2 * 0x100 + b3) by (bit_vector)
        requires
            value == (b0 as u32) << 24 | (b1 as u32) << 16 | (b2 as u32) << 8 | (b3 as u32),
    ;
    value
}

} // verus!
