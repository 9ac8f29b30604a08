//! Little-endian reconstruction of 16- and 32-bit values from single bytes,
//! as they arrive on the wire.

use vstd::prelude::*;

verus! {

/// The unsigned 16-bit value stored little-endian as the bytes `b0`, `b1`.
pub open spec fn u16_le(b0: u8, b1: u8) -> u16 {
    (b0 + b1 * 0x100) as u16
}

/// The unsigned 32-bit value stored little-endian as `b0` .. `b3`.
pub open spec fn u32_le(b0: u8, b1: u8, b2: u8, b3: u8) -> u32 {
    (b0 + b1 * 0x100 + b2 * 0x1_0000 + b3 * 0x100_0000) as u32
}

/// The two's-complement reading of an unsigned 32-bit value.
pub open spec fn as_signed_32(u: u32) -> i32 {
    if u < 0x8000_0000 {
        u as i32
    } else {
        (u - 0x1_0000_0000) as i32
    }
}

/// The two's-complement reading of an unsigned 16-bit value.
pub open spec fn as_signed_16(u: u16) -> i16 {
    if u < 0x8000 {
        u as i16
    } else {
        (u - 0x1_0000) as i16
    }
}

/// The signed 32-bit value stored little-endian as `b0` .. `b3`.
pub open spec fn i32_le(b0: u8, b1: u8, b2: u8, b3: u8) -> i32 {
    as_signed_32(u32_le(b0, b1, b2, b3))
}

/// The signed 16-bit value stored little-endian as the bytes `b0`, `b1`.
pub open spec fn i16_le(b0: u8, b1: u8) -> i16 {
    as_signed_16(u16_le(b0, b1))
}

pub fn u16_from_le(b0: u8, b1: u8) -> (r: u16)
    ensures
        r == u16_le(b0, b1),
{
    b0 as u16 + (b1 as u16) * 0x100
}

pub fn u32_from_le(b0: u8, b1: u8, b2: u8, b3: u8) -> (r: u32)
    ensures
        r == u32_le(b0, b1, b2, b3),
{
    b0 as u32 + (b1 as u32) * 0x100 + (b2 as u32) * 0x1_0000 + (b3 as u32) * 0x100_0000
}

pub fn i32_from_le(b0: u8, b1: u8, b2: u8, b3: u8) -> (r: i32)
    ensures
        r == i32_le(b0, b1, b2, b3),
{
    let u = u32_from_le(b0, b1, b2, b3);
    if u <= 0x7FFF_FFFF {
        u as i32
    } else {
        -((0xFFFF_FFFFu32 - u) as i32) - 1
    }
}

pub fn i16_from_le(b0: u8, b1: u8) -> (r: i16)
    ensures
        r == i16_le(b0, b1),
{
    let u = u16_from_le(b0, b1);
    if u <= 0x7FFF {
        u as i16
    } else {
        -((0xFFFFu16 - u) as i16) - 1
    }
}

} // verus!
