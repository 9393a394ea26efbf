//! Signed integers mapped onto unsigned ones by reference, keeping their order.
use vstd::prelude::*;

verus! {
/// A signed integer mapped onto the unsigned integer of its width so that
/// the order is kept: the least value goes to 0 and the greatest to the
/// greatest.
pub trait ToUnsigned<A> {
    fn to_unsigned(&self) -> A;
}

/// `a` moved up by half the range of `u8`.
pub open spec fn shifted_i8(a: i8) -> u8 {
    (a + 128) as u8
}

impl ToUnsigned<u8> for i8 {
    fn to_unsigned(&self) -> (r: u8)
        ensures
            r == shifted_i8(*self),
            r == *self - i8::MIN,
    {
        let a = *self;
        let r = (a as u8) ^ 0x80;
        assert(r == ((a + 128) as u8)) by (bit_vector)
            requires
                r == (a as u8) ^ 0x80,
        ;
        r
    }
}

/// `a` moved up by half the range of `u16`.
pub open spec fn shifted_i16(a: i16) -> u16 {
    (a + 0x8000) as u16
}

impl ToUnsigned<u16> for i16 {
    fn to_unsigned(&self) -> (r: u16)
        ensures
            r == shifted_i16(*self),
            r == *self - i16::MIN,
    {
        let a = *self;
        let r = (a as u16) ^ 0x8000;
        assert(r == ((a + 0x8000) as u16)) by (bit_vector)
            requires
                r == (a as u16) ^ 0x8000,
        ;
        r
    }
}

/// `a` moved up by half the range of `u32`.
pub open spec fn shifted_i32(a: i32) -> u32 {
    (a + 0x8000_0000) as u32
}

impl ToUnsigned<u32> for i32 {
    fn to_unsigned(&self) -> (r: u32)
        ensures
            r == shifted_i32(*self),
            r == *self - i32::MIN,
    {
        let a = *self;
        let r = (a as u32) ^ 0x8000_0000;
        assert(r == ((a + 0x8000_0000) as u32)) by (bit_vector)
            requires
                r == (a as u32) ^ 0x8000_0000,
        ;
        r
    }
}

/// `a` moved up by half the range of `u64`.
pub open spec fn shifted_i64(a: i64) -> u64 {
    (a + 0x8000_0000_0000_0000) as u64
}

impl ToUnsigned<u64> for i64 {
    fn to_unsigned(&self) -> (r: u64)
        ensures
            r == shifted_i64(*self),
            r == *self - i64::MIN,
    {
        let a = *self;
        let r = (a as u64) ^ 0x8000_0000_0000_0000;
        assert(r == ((a + 0x8000_0000_0000_0000) as u64)) by (bit_vector)
            requires
                r == (a as u64) ^ 0x8000_0000_0000_0000,
        ;
        r
    }
}

/// `a` moved up by half the range of `usize`.
pub open spec fn shifted_isize(a: isize) -> usize {
    (a - isize::MIN) as usize
}

impl ToUnsigned<usize> for isize {
    fn to_unsigned(&self) -> (r: usize)
        ensures
            r == shifted_isize(*self),
            r == *self - isize::MIN,
    {
        let a = *self;
        let half: usize = isize::MAX as usize + 1;
        let r = if a >= 0 {
            a as usize + half
        } else {
            (a - isize::MIN) as usize
        };
        r
    }
}

} // verus!
