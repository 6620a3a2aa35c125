//! `stco`: the chunk offset table, 32-bit offsets of each chunk.
use vstd::prelude::*;
use crate::mp4::error::Error;
use crate::mp4::stream::{fits, be24, be32, be32s, sat_sub, read_u32, read_u32s};
use crate::mp4::atom::{read_full_header, spec_full_header, box_end, spec_overflow, outcome};

verus! {

#[derive(Debug, Clone)]
pub struct Stco {
    pub version: u8,
    pub flags: u32,
    pub entries: Vec<u32>,
}

pub open spec fn stco_res(d: Seq<u8>, p: int, size: u64) -> Result<(), Error> {
    match spec_full_header(d, p) {
        Err(e) => Err(e),
        Ok(fh) => if !fits(d, p + 4, 4) {
            Err(Error::Io)
        } else if be32(d, p + 4) > sat_sub(sat_sub(size as int, 12), 4) / 4 {
            Err(Error::InvalidData("stco entry_count indicates more entries than could fit in the box"))
        } else if be32(d, p + 4) > 0 && !fits(d, p + 8, 4 * be32(d, p + 4)) {
            Err(Error::Io)
        } else if p - 8 + size > u64::MAX {
            Err(spec_overflow())
        } else {
            Ok(())
        },
    }
}

pub open spec fn stco_rel(d: Seq<u8>, p: int, size: u64, x: Stco) -> bool {
    &&& x.version == d[p]
    &&& x.flags == be24(d, p + 1)
    &&& x.entries@ == be32s(d, p + 8, be32(d, p + 4) as nat)
}

impl Stco {
    /// Reads the box whose data starts at the position, and moves to its end.
    pub fn read(data: &[u8], pos: &mut u64, size: u64) -> (r: Result<Self, Error>)
        requires
            *old(pos) >= 8,
        ensures
            outcome(r, stco_res(data@, *old(pos) as int, size), |x: Stco| stco_rel(data@, *old(pos) as int, size, x)),
            r is Ok ==> *final(pos) == *old(pos) - 8 + size,
    {
        let p0 = *pos;
        let full_header = read_full_header(data, pos)?;
        let entry_count = read_u32(data, pos)?;
        let room = if size > 16 {
            size - 16
        } else {
            0
        };
        if entry_count as u64 > room / 4 {
            return Err(Error::InvalidData("stco entry_count indicates more entries than could fit in the box"));
        }
        let entries = read_u32s(data, pos, entry_count)?;
        *pos = box_end(p0, size)?;
        Ok(Stco { version: full_header.version, flags: full_header.flags, entries })
    }
}

} // verus!
