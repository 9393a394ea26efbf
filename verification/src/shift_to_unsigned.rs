//! Signed integers shifted onto unsigned ones, keeping their order.
use vstd::prelude::*;

verus! {
/// A signed integer mapped onto the unsigned integer of its width so that
/// the order is kept: the least value goes to 0 and the greatest to the
/// greatest.
pub trait ShiftToUnsigned<A> {
    fn shift_to_unsigned(self) -> A;
}

/// `a` moved up by half the range of `u8`.
pub open spec fn shifted_i8(a: i8) -> u8 {
    (a + 128) as u8
}

impl ShiftToUnsigned<u8> for i8 {
    fn shift_to_unsigned(self) -> (r: u8)
        ensures
            r == shifted_i8(self),
            r == self - i8::MIN,
    {
        let a = self;
        let r = (a as u8) ^ 0x80;
        assert(r == ((a + 128) as u8)) by (bit_vector)
            requires
                r == (a as u8) ^ 0x80,
        ;
        r
    }
}

/// `a` moved up by half the range of `u16`.
pub open spec fn shifted_i16(a: i16) -> u16 {
    (a + 0x8000) as u16
}

impl ShiftToUnsigned<u16> for i16 {
    fn shift_to_unsigned(self) -> (r: u16)
        ensures
            r == shifted_i16(self),
            r == self - i16::MIN,
    {
        let a = self;
        let r = (a as u16) ^ 0x8000;
        assert(r == ((a + 0x8000) as u16)) by (bit_vector)
            requires
                r == (a as u16) ^ 0x8000,
        ;
        r
    }
}

/// `a` moved up by half the range of `u32`.
pub open spec fn shifted_i32(a: i32) -> u32 {
    (a + 0x8000_0000) as u32
}

impl ShiftToUnsigned<u32> for i32 {
    fn shift_to_unsigned(self) -> (r: u32)
        ensures
            r == shifted_i32(self),
            r == self - i32::MIN,
    {
        let a = self;
        let r = (a as u32) ^ 0x8000_0000;
        assert(r == ((a + 0x8000_0000) as u32)) by (bit_vector)
            requires
                r == (a as u32) ^ 0x8000_0000,
        ;
        r
    }
}

/// `a` moved up by half the range of `u64`.
pub open spec fn shifted_i64(a: i64) -> u64 {
    (a + 0x8000_0000_0000_0000) as u64
}

impl ShiftToUnsigned<u64> for i64 {
    fn shift_to_unsigned(self) -> (r: u64)
        ensures
            r == shifted_i64(self),
            r == self - i64::MIN,
    {
        let a = self;
        let r = (a as u64) ^ 0x8000_0000_0000_0000;
        assert(r == ((a + 0x8000_0000_0000_0000) as u64)) by (bit_vector)
            requires
                r == (a as u64) ^ 0x8000_0000_0000_0000,
        ;
        r
    }
}

/// `a` moved up by half the range of `usize`.
pub open spec fn shifted_isize(a: isize) -> usize {
    (a - isize::MIN) as usize
}

impl ShiftToUnsigned<usize> for isize {
    fn shift_to_unsigned(self) -> (r: usize)
        ensures
            r == shifted_isize(self),
            r == self - isize::MIN,
    {
        let a = self;
        let half: usize = isize::MAX as usize + 1;
        let r = if a >= 0 {
            a as usize + half
        } else {
            (a - isize::MIN) as usize
        };
        r
    }
}

// ---------------------------------------------------------------------------
// Laws

/// The shift keeps the order of `i8` values, and tells them apart.
pub proof fn lemma_shift_order_i8(a: i8, b: i8)
    ensures
        (a < b) == (shifted_i8(a) < shifted_i8(b)),
        (a == b) == (shifted_i8(a) == shifted_i8(b)),
{
}

/// Every `u8` value is the shift of a `i8` value.
pub proof fn lemma_shift_onto_i8(v: u8)
    ensures
        shifted_i8((v - 128) as i8) == v,
{
}

/// The shift keeps the order of `i16` values, and tells them apart.
pub proof fn lemma_shift_order_i16(a: i16, b: i16)
    ensures
        (a < b) == (shifted_i16(a) < shifted_i16(b)),
        (a == b) == (shifted_i16(a) == shifted_i16(b)),
{
}

/// Every `u16` value is the shift of a `i16` value.
pub proof fn lemma_shift_onto_i16(v: u16)
    ensures
        shifted_i16((v - 0x8000) as i16) == v,
{
}

/// The shift keeps the order of `i32` values, and tells them apart.
pub proof fn lemma_shift_order_i32(a: i32, b: i32)
    ensures
        (a < b) == (shifted_i32(a) < shifted_i32(b)),
        (a == b) == (shifted_i32(a) == shifted_i32(b)),
{
}

/// Every `u32` value is the shift of a `i32` value.
pub proof fn lemma_shift_onto_i32(v: u32)
    ensures
        shifted_i32((v - 0x8000_0000) as i32) == v,
{
}

/// The shift keeps the order of `i64` values, and tells them apart.
pub proof fn lemma_shift_order_i64(a: i64, b: i64)
    ensures
        (a < b) == (shifted_i64(a) < shifted_i64(b)),
        (a == b) == (shifted_i64(a) == shifted_i64(b)),
{
}

/// Every `u64` value is the shift of a `i64` value.
pub proof fn lemma_shift_onto_i64(v: u64)
    ensures
        shifted_i64((v - 0x8000_0000_0000_0000) as i64) == v,
{
}

/// The shift keeps the order of `isize` values, and tells them apart.
pub proof fn lemma_shift_order_isize(a: isize, b: isize)
    ensures
        (a < b) == (shifted_isize(a) < shifted_isize(b)),
        (a == b) == (shifted_isize(a) == shifted_isize(b)),
{
}

/// Every `usize` value is the shift of an `isize` value.
pub proof fn lemma_shift_onto_isize(v: usize)
    ensures
        shifted_isize((v + isize::MIN) as isize) == v,
{
}

} // verus!
