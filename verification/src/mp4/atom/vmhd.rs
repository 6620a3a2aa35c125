//! `vmhd`: the video media header.
use vstd::prelude::*;
use crate::mp4::error::Error;
use crate::mp4::stream::{fits, be16, be24, read_u16};
use crate::mp4::atom::{read_full_header, spec_full_header, box_end, spec_overflow, outcome};

verus! {

#[derive(Debug, Clone, Copy, PartialEq, Eq, Structural)]
pub struct RgbColor {
    pub r: u16,
    pub g: u16,
    pub b: u16,
}

#[derive(Debug, Clone, Copy, PartialEq, Eq, Structural)]
pub struct Vmhd {
    pub version: u8,
    pub flags: u32,
    pub graphics_mode: u16,
    pub op_color: RgbColor,
}

pub open spec fn vmhd_res(d: Seq<u8>, p: int, size: u64) -> Result<(), Error> {
    match spec_full_header(d, p) {
        Err(e) => Err(e),
        Ok(fh) => if !fits(d, p + 4, 8) {
            Err(Error::Io)
        } else if p - 8 + size > u64::MAX {
            Err(spec_overflow())
        } else {
            Ok(())
        },
    }
}

pub open spec fn vmhd_rel(d: Seq<u8>, p: int, size: u64, x: Vmhd) -> bool {
    x == Vmhd {
        version: d[p],
        flags: be24(d, p + 1),
        graphics_mode: be16(d, p + 4),
        op_color: RgbColor { r: be16(d, p + 6), g: be16(d, p + 8), b: be16(d, p + 10) },
    }
}

impl Vmhd {
    /// Reads the box whose data starts at the position, and moves to its end.
    pub fn read(data: &[u8], pos: &mut u64, size: u64) -> (r: Result<Self, Error>)
        requires
            *old(pos) >= 8,
        ensures
            outcome(r, vmhd_res(data@, *old(pos) as int, size), |x: Vmhd| vmhd_rel(data@, *old(pos) as int, size, x)),
            r is Ok ==> *final(pos) == *old(pos) - 8 + size,
    {
        let p0 = *pos;
        let full_header = read_full_header(data, pos)?;
        let graphics_mode = read_u16(data, pos)?;
        let r = read_u16(data, pos)?;
        let g = read_u16(data, pos)?;
        let b = read_u16(data, pos)?;
        *pos = box_end(p0, size)?;
        Ok(Vmhd {
            version: full_header.version,
            flags: full_header.flags,
            graphics_mode,
            op_color: RgbColor { r, g, b },
        })
    }
}

} // verus!
