//! `tx3g`: the sample entry of a timed text (3GPP) subtitle track.
use vstd::prelude::*;
use crate::mp4::error::Error;
use crate::mp4::stream::{fits, be16, be32, read_u8, read_u16, read_u32};
use crate::mp4::atom::{box_end, spec_overflow, outcome};

verus! {

#[derive(Debug, Clone, Copy, PartialEq, Eq, Structural)]
pub struct RgbaColor {
    pub r: u8,
    pub g: u8,
    pub b: u8,
    pub a: u8,
}

#[derive(Debug, Clone, Copy)]
pub struct Tx3g {
    pub data_reference_index: u16,
    pub display_flags: u32,
    pub horizontal_justification: i8,
    pub vertical_justification: i8,
    pub bg_color_rgba: RgbaColor,
    pub box_record: [i16; 4],
    pub style_record: [u8; 12],
}

pub open spec fn tx3g_res(d: Seq<u8>, p: int, size: u64) -> Result<(), Error> {
    if !fits(d, p, 38) {
        Err(Error::Io)
    } else if p - 8 + size > u64::MAX {
        Err(spec_overflow())
    } else {
        Ok(())
    }
}

pub open spec fn tx3g_rel(d: Seq<u8>, p: int, size: u64, x: Tx3g) -> bool {
    &&& x.data_reference_index == be16(d, p + 6)
    &&& x.display_flags == be32(d, p + 8)
    &&& x.horizontal_justification == d[p + 12] as i8
    &&& x.vertical_justification == d[p + 13] as i8
    &&& x.bg_color_rgba == RgbaColor { r: d[p + 14], g: d[p + 15], b: d[p + 16], a: d[p + 17] }
    &&& x.box_record@ == Seq::new(4, |i: int| be16(d, p + 18 + 2 * i) as i16)
    &&& x.style_record@ == d.subrange(p + 26, p + 38)
}

impl Tx3g {
    /// Reads the box whose data starts at the position, and moves to its end.
    pub fn read(data: &[u8], pos: &mut u64, size: u64) -> (r: Result<Self, Error>)
        requires
            *old(pos) >= 8,
        ensures
            outcome(r, tx3g_res(data@, *old(pos) as int, size), |x: Tx3g| tx3g_rel(data@, *old(pos) as int, size, x)),
            r is Ok ==> *final(pos) == *old(pos) - 8 + size,
    {
        let p0 = *pos;
        if *pos > data.len() as u64 || data.len() as u64 - *pos < 38 {
            return Err(Error::Io);
        }
        read_u32(data, pos)?;  // reserved
        read_u16(data, pos)?;  // reserved
        let data_reference_index = read_u16(data, pos)?;
        let display_flags = read_u32(data, pos)?;
        let horizontal_justification = read_u8(data, pos)? as i8;
        let vertical_justification = read_u8(data, pos)? as i8;
        let r = read_u8(data, pos)?;
        let g = read_u8(data, pos)?;
        let b = read_u8(data, pos)?;
        let a = read_u8(data, pos)?;
        let b0 = read_u16(data, pos)? as i16;
        let b1 = read_u16(data, pos)? as i16;
        let b2 = read_u16(data, pos)? as i16;
        let b3 = read_u16(data, pos)? as i16;
        let box_record = [b0, b1, b2, b3];
        let s0 = read_u8(data, pos)?;
        let s1 = read_u8(data, pos)?;
        let s2 = read_u8(data, pos)?;
        let s3 = read_u8(data, pos)?;
        let s4 = read_u8(data, pos)?;
        let s5 = read_u8(data, pos)?;
        let s6 = read_u8(data, pos)?;
        let s7 = read_u8(data, pos)?;
        let s8 = read_u8(data, pos)?;
        let s9 = read_u8(data, pos)?;
        let s10 = read_u8(data, pos)?;
        let s11 = read_u8(data, pos)?;
        let style_record = [s0, s1, s2, s3, s4, s5, s6, s7, s8, s9, s10, s11];
        proof {
            assert(box_record@ =~= Seq::new(4, |i: int| be16(data@, p0 + 18 + 2 * i) as i16));
            assert(style_record@ =~= data@.subrange(p0 + 26, p0 + 38));
        }
        *pos = box_end(p0, size)?;
        Ok(Tx3g {
            data_reference_index,
            display_flags,
            horizontal_justification,
            vertical_justification,
            bg_color_rgba: RgbaColor { r, g, b, a },
            box_record,
            style_record,
        })
    }
}

} // verus!
