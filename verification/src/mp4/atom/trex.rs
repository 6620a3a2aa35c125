//! `trex`: the defaults a track's movie fragments start from.
use vstd::prelude::*;
use crate::mp4::error::Error;
use crate::mp4::stream::{fits, be24, be32, read_u32};
use crate::mp4::atom::{read_full_header, spec_full_header, box_end, spec_overflow, outcome};

verus! {

#[derive(Debug, Clone, Copy, PartialEq, Eq, Structural)]
pub struct Trex {
    pub version: u8,
    pub flags: u32,
    pub track_id: u32,
    pub default_sample_description_index: u32,
    pub default_sample_duration: u32,
    pub default_sample_size: u32,
    pub default_sample_flags: u32,
}

pub open spec fn trex_res(d: Seq<u8>, p: int, size: u64) -> Result<(), Error> {
    match spec_full_header(d, p) {
        Err(e) => Err(e),
        Ok(fh) => if !fits(d, p + 4, 20) {
            Err(Error::Io)
        } else if p - 8 + size > u64::MAX {
            Err(spec_overflow())
        } else {
            Ok(())
        },
    }
}

pub open spec fn trex_rel(d: Seq<u8>, p: int, size: u64, x: Trex) -> bool {
    x == Trex {
        version: d[p],
        flags: be24(d, p + 1),
        track_id: be32(d, p + 4),
        default_sample_description_index: be32(d, p + 8),
        default_sample_duration: be32(d, p + 12),
        default_sample_size: be32(d, p + 16),
        default_sample_flags: be32(d, p + 20),
    }
}

impl Trex {
    /// Reads the box whose data starts at the position, and moves to its end.
    pub fn read(data: &[u8], pos: &mut u64, size: u64) -> (r: Result<Self, Error>)
        requires
            *old(pos) >= 8,
        ensures
            outcome(r, trex_res(data@, *old(pos) as int, size), |x: Trex| trex_rel(data@, *old(pos) as int, size, x)),
            r is Ok ==> *final(pos) == *old(pos) - 8 + size,
    {
        let p0 = *pos;
        let full_header = read_full_header(data, pos)?;
        let track_id = read_u32(data, pos)?;
        let default_sample_description_index = read_u32(data, pos)?;
        let default_sample_duration = read_u32(data, pos)?;
        let default_sample_size = read_u32(data, pos)?;
        let default_sample_flags = read_u32(data, pos)?;
        *pos = box_end(p0, size)?;
        Ok(Trex {
            version: full_header.version,
            flags: full_header.flags,
            track_id,
            default_sample_description_index,
            default_sample_duration,
            default_sample_size,
            default_sample_flags,
        })
    }
}

} // verus!
