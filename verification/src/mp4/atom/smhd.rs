//! `smhd`: the sound media header.
use vstd::prelude::*;
use crate::mp4::error::Error;
use crate::mp4::stream::{fits, be16, be24, read_u16};
use crate::mp4::atom::{read_full_header, spec_full_header, box_end, spec_overflow, outcome};
use crate::types::FixedI8;

verus! {

#[derive(Debug, Clone, Copy, PartialEq, Eq, Structural)]
pub struct Smhd {
    pub version: u8,
    pub flags: u32,
    pub balance: FixedI8,
}

pub open spec fn smhd_res(d: Seq<u8>, p: int, size: u64) -> Result<(), Error> {
    match spec_full_header(d, p) {
        Err(e) => Err(e),
        Ok(fh) => if !fits(d, p + 4, 2) {
            Err(Error::Io)
        } else if p - 8 + size > u64::MAX {
            Err(spec_overflow())
        } else {
            Ok(())
        },
    }
}

pub open spec fn smhd_rel(d: Seq<u8>, p: int, size: u64, x: Smhd) -> bool {
    x == Smhd { version: d[p], flags: be24(d, p + 1), balance: FixedI8(be16(d, p + 4) as i16) }
}

impl Smhd {
    /// Reads the box whose data starts at the position, and moves to its end.
    pub fn read(data: &[u8], pos: &mut u64, size: u64) -> (r: Result<Self, Error>)
        requires
            *old(pos) >= 8,
        ensures
            outcome(r, smhd_res(data@, *old(pos) as int, size), |x: Smhd| smhd_rel(data@, *old(pos) as int, size, x)),
            r is Ok ==> *final(pos) == *old(pos) - 8 + size,
    {
        let p0 = *pos;
        let full_header = read_full_header(data, pos)?;
        let balance = FixedI8::from_raw(read_u16(data, pos)? as i16);
        *pos = box_end(p0, size)?;
        Ok(Smhd { version: full_header.version, flags: full_header.flags, balance })
    }
}

} // verus!
