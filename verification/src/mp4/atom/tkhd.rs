//! `tkhd`: the track header, with the track's id and presentation size.
use vstd::prelude::*;
use crate::mp4::error::Error;
use crate::mp4::stream::{fits, be16, be24, be32, be64, read_u16, read_u32, read_u64};
use crate::mp4::atom::{read_full_header, spec_full_header, box_end, spec_overflow, spec_bad_version, outcome};
use crate::mp4::atom::common::{Matrix, read_matrix, spec_matrix_at};
use crate::types::{FixedU16, FixedU8};

verus! {

#[derive(Debug, Clone, Copy, PartialEq, Eq, Structural)]
pub struct Tkhd {
    pub version: u8,
    pub flags: u32,
    pub creation_time: u64,
    pub modification_time: u64,
    pub track_id: u32,
    pub duration: u64,
    pub layer: u16,
    pub alternate_group: u16,
    pub volume: FixedU8,
    pub matrix: Matrix,
    pub width: FixedU16,
    pub height: FixedU16,
}

/// Bytes the times, the track id and a reserved word take.
pub open spec fn ids_len(version: u8) -> int {
    if version == 1 {
        32
    } else {
        20
    }
}

/// The track id of the `tkhd` box whose data starts at `p`: after 64-bit
/// times in version 1, 32-bit ones otherwise.
pub open spec fn spec_track_id(d: Seq<u8>, p: int) -> u32 {
    if d[p] == 1 {
        be32(d, p + 20)
    } else {
        be32(d, p + 12)
    }
}

pub open spec fn tkhd_res(d: Seq<u8>, p: int, size: u64) -> Result<(), Error> {
    match spec_full_header(d, p) {
        Err(e) => Err(e),
        Ok(fh) => if fh.version != 0 && fh.version != 1 {
            Err(spec_bad_version())
        } else if !fits(d, p + 4, ids_len(fh.version) + 60) {
            Err(Error::Io)
        } else if p - 8 + size > u64::MAX {
            Err(spec_overflow())
        } else {
            Ok(())
        },
    }
}

pub open spec fn tkhd_rel(d: Seq<u8>, p: int, size: u64, x: Tkhd) -> bool {
    let v = d[p];
    let q = p + 4;
    let r = q + ids_len(v);
    &&& x.version == v
    &&& x.flags == be24(d, p + 1)
    &&& x.track_id == spec_track_id(d, p)
    &&& v == 1 ==> x.creation_time == be64(d, q) && x.modification_time == be64(d, q + 8)
        && x.duration == be64(d, q + 24)
    &&& v == 0 ==> x.creation_time == be32(d, q) as u64 && x.modification_time == be32(d, q + 4)
        as u64 && x.duration == be32(d, q + 16) as u64
    &&& x.layer == be16(d, r + 8)
    &&& x.alternate_group == be16(d, r + 10)
    &&& x.volume == FixedU8(be16(d, r + 12))
    &&& x.matrix == spec_matrix_at(d, r + 16)
    &&& x.width == FixedU16(be32(d, r + 52))
    &&& x.height == FixedU16(be32(d, r + 56))
}

impl Tkhd {
    /// Reads the box whose data starts at the position, and moves to its end.
    pub fn read(data: &[u8], pos: &mut u64, size: u64) -> (r: Result<Self, Error>)
        requires
            *old(pos) >= 8,
        ensures
            outcome(r, tkhd_res(data@, *old(pos) as int, size), |x: Tkhd| tkhd_rel(data@, *old(pos) as int, size, x)),
            r is Ok ==> *final(pos) == *old(pos) - 8 + size,
    {
        let p0 = *pos;
        let full_header = read_full_header(data, pos)?;
        let (creation_time, modification_time, track_id, duration) = if full_header.version
            == 1 {
            let c = read_u64(data, pos)?;
            let m = read_u64(data, pos)?;
            let t = read_u32(data, pos)?;
            read_u32(data, pos)?;  // reserved
            let d = read_u64(data, pos)?;
            (c, m, t, d)
        } else if full_header.version == 0 {
            let c = read_u32(data, pos)? as u64;
            let m = read_u32(data, pos)? as u64;
            let t = read_u32(data, pos)?;
            read_u32(data, pos)?;  // reserved
            let d = read_u32(data, pos)? as u64;
            (c, m, t, d)
        } else {
            return Err(Error::InvalidData("version must be 0 or 1"));
        };
        read_u64(data, pos)?;  // reserved
        let layer = read_u16(data, pos)?;
        let alternate_group = read_u16(data, pos)?;
        let volume = FixedU8::from_raw(read_u16(data, pos)?);
        read_u16(data, pos)?;  // reserved
        let matrix = read_matrix(data, pos)?;
        let width = FixedU16::from_raw(read_u32(data, pos)?);
        let height = FixedU16::from_raw(read_u32(data, pos)?);
        *pos = box_end(p0, size)?;
        Ok(Tkhd {
            version: full_header.version,
            flags: full_header.flags,
            creation_time,
            modification_time,
            track_id,
            duration,
            layer,
            alternate_group,
            volume,
            matrix,
            width,
            height,
        })
    }
}

} // verus!
