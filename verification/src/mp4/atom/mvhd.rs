//! `mvhd`: the movie header, with the movie's timescale and duration.
use vstd::prelude::*;
use crate::mp4::error::Error;
use crate::mp4::stream::{fits, be16, be24, be32, be64, read_u16, read_u32, read_u64, skip_bytes};
use crate::mp4::atom::{read_full_header, spec_full_header, box_end, spec_overflow, spec_bad_version, outcome};
use crate::mp4::atom::common::{Matrix, read_matrix, spec_matrix_at};
use crate::mp4::atom::mdhd::times_len;
use crate::types::{FixedU16, FixedU8};

verus! {

#[derive(Debug, Clone, Copy, PartialEq, Eq, Structural)]
pub struct Mvhd {
    pub version: u8,
    pub flags: u32,
    pub creation_time: u64,
    pub modification_time: u64,
    pub timescale: u32,
    pub duration: u64,
    pub rate: FixedU16,
    pub volume: FixedU8,
    pub matrix: Matrix,
    pub next_track_id: u32,
}

pub open spec fn mvhd_res(d: Seq<u8>, p: int, size: u64) -> Result<(), Error> {
    match spec_full_header(d, p) {
        Err(e) => Err(e),
        Ok(fh) => if fh.version != 0 && fh.version != 1 {
            Err(spec_bad_version())
        } else if !fits(d, p + 4, times_len(fh.version) + 80) {
            Err(Error::Io)
        } else if p - 8 + size > u64::MAX {
            Err(spec_overflow())
        } else {
            Ok(())
        },
    }
}

pub open spec fn mvhd_rel(d: Seq<u8>, p: int, size: u64, x: Mvhd) -> bool {
    let v = d[p];
    let q = p + 4;
    let r = q + times_len(v);
    &&& x.version == v
    &&& x.flags == be24(d, p + 1)
    &&& v == 1 ==> x.creation_time == be64(d, q) && x.modification_time == be64(d, q + 8)
        && x.timescale == be32(d, q + 16) && x.duration == be64(d, q + 20)
    &&& v == 0 ==> x.creation_time == be32(d, q) as u64 && x.modification_time == be32(d, q + 4)
        as u64 && x.timescale == be32(d, q + 8) && x.duration == be32(d, q + 12) as u64
    &&& x.rate == FixedU16(be32(d, r))
    &&& x.volume == FixedU8(be16(d, r + 4))
    &&& x.matrix == spec_matrix_at(d, r + 16)
    &&& x.next_track_id == be32(d, r + 76)
}

impl Mvhd {
    /// Reads the box whose data starts at the position, and moves to its end.
    pub fn read(data: &[u8], pos: &mut u64, size: u64) -> (r: Result<Self, Error>)
        requires
            *old(pos) >= 8,
        ensures
            outcome(r, mvhd_res(data@, *old(pos) as int, size), |x: Mvhd| mvhd_rel(data@, *old(pos) as int, size, x)),
            r is Ok ==> *final(pos) == *old(pos) - 8 + size,
    {
        let p0 = *pos;
        let full_header = read_full_header(data, pos)?;
        let (creation_time, modification_time, timescale, duration) = if full_header.version
            == 1 {
            let c = read_u64(data, pos)?;
            let m = read_u64(data, pos)?;
            let t = read_u32(data, pos)?;
            let d = read_u64(data, pos)?;
            (c, m, t, d)
        } else if full_header.version == 0 {
            let c = read_u32(data, pos)? as u64;
            let m = read_u32(data, pos)? as u64;
            let t = read_u32(data, pos)?;
            let d = read_u32(data, pos)? as u64;
            (c, m, t, d)
        } else {
            return Err(Error::InvalidData("version must be 0 or 1"));
        };
        let rate = FixedU16::from_raw(read_u32(data, pos)?);
        let volume = FixedU8::from_raw(read_u16(data, pos)?);
        read_u16(data, pos)?;  // reserved
        read_u64(data, pos)?;  // reserved
        let matrix = read_matrix(data, pos)?;
        skip_bytes(data, pos, 24)?;  // pre_defined
        let next_track_id = read_u32(data, pos)?;
        *pos = box_end(p0, size)?;
        Ok(Mvhd {
            version: full_header.version,
            flags: full_header.flags,
            creation_time,
            modification_time,
            timescale,
            duration,
            rate,
            volume,
            matrix,
            next_track_id,
        })
    }
}

} // verus!
