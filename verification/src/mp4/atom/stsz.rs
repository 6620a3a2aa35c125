//! `stsz`: the sample size table, one size for all samples or one each.
use vstd::prelude::*;
use crate::mp4::error::Error;
use crate::mp4::stream::{fits, be24, be32, be32s, sat_sub, read_u32, read_u32s};
use crate::mp4::atom::{read_full_header, spec_full_header, box_end, spec_overflow, outcome};

verus! {

#[derive(Debug, Clone)]
pub struct Stsz {
    pub version: u8,
    pub flags: u32,
    pub sample_size: u32,
    pub sample_count: u32,
    pub sample_sizes: Vec<u32>,
}

pub open spec fn stsz_res(d: Seq<u8>, p: int, size: u64) -> Result<(), Error> {
    match spec_full_header(d, p) {
        Err(e) => Err(e),
        Ok(fh) => if !fits(d, p + 4, 8) {
            Err(Error::Io)
        } else if be32(d, p + 4) == 0 && be32(d, p + 8) > sat_sub(sat_sub(size as int, 12), 8)
            / 4 {
            Err(Error::InvalidData("stsz sample_count indicates more values than could fit in the box"))
        } else if be32(d, p + 4) == 0 && be32(d, p + 8) > 0 && !fits(d, p + 12, 4 * be32(d, p + 8)) {
            Err(Error::Io)
        } else if p - 8 + size > u64::MAX {
            Err(spec_overflow())
        } else {
            Ok(())
        },
    }
}

pub open spec fn stsz_rel(d: Seq<u8>, p: int, size: u64, x: Stsz) -> bool {
    &&& x.version == d[p]
    &&& x.flags == be24(d, p + 1)
    &&& x.sample_size == be32(d, p + 4)
    &&& x.sample_count == be32(d, p + 8)
    &&& x.sample_sizes@ == if x.sample_size == 0 {
        be32s(d, p + 12, x.sample_count as nat)
    } else {
        Seq::empty()
    }
}

impl Stsz {
    /// Reads the box whose data starts at the position, and moves to its end.
    pub fn read(data: &[u8], pos: &mut u64, size: u64) -> (r: Result<Self, Error>)
        requires
            *old(pos) >= 8,
        ensures
            outcome(r, stsz_res(data@, *old(pos) as int, size), |x: Stsz| stsz_rel(data@, *old(pos) as int, size, x)),
            r is Ok ==> *final(pos) == *old(pos) - 8 + size,
    {
        let p0 = *pos;
        let full_header = read_full_header(data, pos)?;
        let sample_size = read_u32(data, pos)?;
        let sample_count = read_u32(data, pos)?;
        let mut sample_sizes = Vec::new();
        if sample_size == 0 {
            let room = if size > 20 {
                size - 20
            } else {
                0
            };
            if sample_count as u64 > room / 4 {
                return Err(
                    Error::InvalidData(
                        "stsz sample_count indicates more values than could fit in the box",
                    ),
                );
            }
            sample_sizes = read_u32s(data, pos, sample_count)?;
        }
        *pos = box_end(p0, size)?;
        Ok(Stsz {
            version: full_header.version,
            flags: full_header.flags,
            sample_size,
            sample_count,
            sample_sizes,
        })
    }
}

} // verus!
