//! `mehd`: the movie extends header, with the whole fragmented movie's length.
use vstd::prelude::*;
use crate::mp4::error::Error;
use crate::mp4::stream::{fits, be24, be32, be64, read_u32, read_u64};
use crate::mp4::atom::{read_full_header, spec_full_header, box_end, spec_overflow, spec_bad_version, outcome};

verus! {

#[derive(Debug, Clone, Copy, PartialEq, Eq, Structural)]
pub struct Mehd {
    pub version: u8,
    pub flags: u32,
    pub fragment_duration: u64,
}

pub open spec fn mehd_res(d: Seq<u8>, p: int, size: u64) -> Result<(), Error> {
    match spec_full_header(d, p) {
        Err(e) => Err(e),
        Ok(fh) => if fh.version != 0 && fh.version != 1 {
            Err(spec_bad_version())
        } else if !fits(d, p + 4, if fh.version == 1 { 8int } else { 4int }) {
            Err(Error::Io)
        } else if p - 8 + size > u64::MAX {
            Err(spec_overflow())
        } else {
            Ok(())
        },
    }
}

pub open spec fn mehd_rel(d: Seq<u8>, p: int, size: u64, x: Mehd) -> bool {
    x == Mehd {
        version: d[p],
        flags: be24(d, p + 1),
        fragment_duration: if d[p] == 1 {
            be64(d, p + 4)
        } else {
            be32(d, p + 4) as u64
        },
    }
}

impl Mehd {
    /// Reads the box whose data starts at the position, and moves to its end.
    pub fn read(data: &[u8], pos: &mut u64, size: u64) -> (r: Result<Self, Error>)
        requires
            *old(pos) >= 8,
        ensures
            outcome(r, mehd_res(data@, *old(pos) as int, size), |x: Mehd| mehd_rel(data@, *old(pos) as int, size, x)),
            r is Ok ==> *final(pos) == *old(pos) - 8 + size,
    {
        let p0 = *pos;
        let full_header = read_full_header(data, pos)?;
        let fragment_duration = if full_header.version == 1 {
            read_u64(data, pos)?
        } else if full_header.version == 0 {
            read_u32(data, pos)? as u64
        } else {
            return Err(Error::InvalidData("version must be 0 or 1"));
        };
        *pos = box_end(p0, size)?;
        Ok(Mehd { version: full_header.version, flags: full_header.flags, fragment_duration })
    }
}

} // verus!
