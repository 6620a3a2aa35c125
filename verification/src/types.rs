//! Fixed-point numbers as they are stored in MP4 headers.
use vstd::prelude::*;

verus! {

/// Unsigned 16.16 fixed-point number: `[ integer:16 ][ fraction:16 ]`,
/// so `0x00010000` is 1.0 and `0x00008000` is 0.5.
#[derive(Debug, Clone, Copy, PartialEq, Eq, Structural)]
pub struct FixedU16(pub u32);

impl FixedU16 {
    /// Initialize from the raw `u32`.
    pub fn from_raw(raw: u32) -> (r: Self)
        ensures
            r.0 == raw,
    {
        FixedU16(raw)
    }

    /// The integer component: the high 16 bits.
    pub fn integer(self) -> (r: u16)
        ensures
            r as int == self.0 as int / 0x10000,
    {
        let v = self.0;
        let r = (v >> 16u32) as u16;
        assert(r as int == v as int / 0x10000) by (bit_vector)
            requires
                r == (v >> 16u32) as u16,
        ;
        r
    }

    /// The raw lower 16-bit fraction, not a normalized value.
    pub fn fraction(self) -> (r: u16)
        ensures
            r as int == self.0 as int % 0x10000,
    {
        let v = self.0;
        let r = (v & 0xFFFFu32) as u16;
        assert(r as int == v as int % 0x10000) by (bit_vector)
            requires
                r == (v & 0xFFFFu32) as u16,
        ;
        r
    }

    /// The raw underlying representation.
    pub fn raw(self) -> (r: u32)
        ensures
            r == self.0,
    {
        self.0
    }
}

/// Unsigned 8.8 fixed-point number: `[ integer:8 ][ fraction:8 ]`,
/// so `0x0100` is 1.0 and `0x0080` is 0.5.
#[derive(Debug, Clone, Copy, PartialEq, Eq, Structural)]
pub struct FixedU8(pub u16);

impl FixedU8 {
    /// Initialize from the raw `u16`.
    pub fn from_raw(raw: u16) -> (r: Self)
        ensures
            r.0 == raw,
    {
        FixedU8(raw)
    }

    /// The integer component: the high 8 bits.
    pub fn integer(self) -> (r: u8)
        ensures
            r as int == self.0 as int / 0x100,
    {
        let v = self.0;
        let r = (v >> 8u16) as u8;
        assert(r as int == v as int / 0x100) by (bit_vector)
            requires
                r == (v >> 8u16) as u8,
        ;
        r
    }

    /// The raw lower 8-bit fraction, not a normalized value.
    pub fn fraction(self) -> (r: u8)
        ensures
            r as int == self.0 as int % 0x100,
    {
        let v = self.0;
        let r = (v & 0xFFu16) as u8;
        assert(r as int == v as int % 0x100) by (bit_vector)
            requires
                r == (v & 0xFFu16) as u8,
        ;
        r
    }

    /// The raw underlying representation.
    pub fn raw(self) -> (r: u16)
        ensures
            r == self.0,
    {
        self.0
    }
}

/// Signed 8.8 fixed-point number: `0x0100` is 1.0, `0xFF00` is -1.0,
/// `0xFF80` is -0.5.
#[derive(Debug, Clone, Copy, PartialEq, Eq, Structural)]
pub struct FixedI8(pub i16);

impl FixedI8 {
    /// Initialize from the raw `i16`.
    pub fn from_raw(raw: i16) -> (r: Self)
        ensures
            r.0 == raw,
    {
        FixedI8(raw)
    }

    /// The integer component, rounded towards minus infinity: the high 8 bits
    /// read as a signed byte.
    pub fn integer(self) -> (r: i8)
        ensures
            r as int == self.0 as int / 0x100,
    {
        let v = self.0;
        let r = (v >> 8u16) as i8;
        assert(r as int == v as int / 0x100) by (bit_vector)
            requires
                r == (v >> 8u16) as i8,
        ;
        r
    }

    /// The raw lower 8 bits, not a normalized value.
    pub fn fraction(self) -> (r: u8)
        ensures
            r as int == self.0 as int % 0x100,
    {
        let v = self.0;
        let r = (v & 0x00FFi16) as u8;
        assert(r as int == v as int % 0x100) by (bit_vector)
            requires
                r == (v & 0x00FFi16) as u8,
        ;
        r
    }

    /// The raw underlying representation.
    pub fn raw(self) -> (r: i16)
        ensures
            r == self.0,
    {
        self.0
    }
}

/// Signed 2.30 fixed-point number: `0x40000000` is 1.0, `0x80000000` is -2.0.
#[derive(Debug, Clone, Copy, PartialEq, Eq, Structural)]
pub struct Fixed2_30(pub i32);

impl Fixed2_30 {
    /// Initialize from the raw `i32`.
    pub fn from_raw(raw: i32) -> (r: Self)
        ensures
            r.0 == raw,
    {
        Fixed2_30(raw)
    }

    /// The integer component, rounded towards minus infinity: the top two bits.
    pub fn integer(self) -> (r: i8)
        ensures
            r as int == self.0 as int / 0x4000_0000,
    {
        let v = self.0;
        let r = (v >> 30u32) as i8;
        assert(r as int == v as int / 0x4000_0000) by (bit_vector)
            requires
                r == (v >> 30u32) as i8,
        ;
        r
    }

    /// The raw lower 30 bits, not a normalized value.
    pub fn fraction(self) -> (r: u32)
        ensures
            r as int == self.0 as int % 0x4000_0000,
    {
        let v = self.0;
        let r = (v & 0x3FFF_FFFFi32) as u32;
        assert(r as int == v as int % 0x4000_0000) by (bit_vector)
            requires
                r == (v & 0x3FFF_FFFFi32) as u32,
        ;
        r
    }

    /// The raw underlying representation.
    pub fn raw(self) -> (r: i32)
        ensures
            r == self.0,
    {
        self.0
    }
}

} // verus!
