//! `mdhd`: the media header of a track, with its timescale, duration and
//! language.
use vstd::prelude::*;
use vstd::utf8::decode_utf8;
use crate::mp4::error::Error;
use crate::mp4::stream::{fits, be16, be24, be32, be64, read_u16, read_u32, read_u64};
use crate::mp4::atom::{read_full_header, spec_full_header, box_end, spec_overflow, spec_bad_version, outcome};
use crate::mp4::atom::common::{language_string, spec_language_bytes};

verus! {

#[derive(Debug, Clone)]
pub struct Mdhd {
    pub version: u8,
    pub flags: u32,
    pub creation_time: u64,
    pub modification_time: u64,
    pub timescale: u32,
    pub duration: u64,
    pub language: String,
}

/// Bytes the four times take: 64-bit ones in version 1.
pub open spec fn times_len(version: u8) -> int {
    if version == 1 {
        28
    } else {
        16
    }
}

pub open spec fn mdhd_res(d: Seq<u8>, p: int, size: u64) -> Result<(), Error> {
    match spec_full_header(d, p) {
        Err(e) => Err(e),
        Ok(fh) => if fh.version != 0 && fh.version != 1 {
            Err(spec_bad_version())
        } else if !fits(d, p + 4, times_len(fh.version) + 2) {
            Err(Error::Io)
        } else if p - 8 + size > u64::MAX {
            Err(spec_overflow())
        } else {
            Ok(())
        },
    }
}

pub open spec fn mdhd_rel(d: Seq<u8>, p: int, size: u64, x: Mdhd) -> bool {
    let v = d[p];
    let q = p + 4;
    &&& x.version == v
    &&& x.flags == be24(d, p + 1)
    &&& v == 1 ==> x.creation_time == be64(d, q) && x.modification_time == be64(d, q + 8)
        && x.timescale == be32(d, q + 16) && x.duration == be64(d, q + 20)
    &&& v == 0 ==> x.creation_time == be32(d, q) as u64 && x.modification_time == be32(d, q + 4)
        as u64 && x.timescale == be32(d, q + 8) && x.duration == be32(d, q + 12) as u64
    &&& x.language@ == decode_utf8(spec_language_bytes(be16(d, q + times_len(v))))
}

impl Mdhd {
    /// Reads the box whose data starts at the position, and moves to its end.
    pub fn read(data: &[u8], pos: &mut u64, size: u64) -> (r: Result<Self, Error>)
        requires
            *old(pos) >= 8,
        ensures
            outcome(r, mdhd_res(data@, *old(pos) as int, size), |x: Mdhd| mdhd_rel(data@, *old(pos) as int, size, x)),
            r is Ok ==> *final(pos) == *old(pos) - 8 + size,
    {
        let p0 = *pos;
        let full_header = read_full_header(data, pos)?;
        let (creation_time, modification_time, timescale, duration) = if full_header.version
            == 1 {
            let c = read_u64(data, pos)?;
            let m = read_u64(data, pos)?;
            let t = read_u32(data, pos)?;
            let d = read_u64(data, pos)?;
            (c, m, t, d)
        } else if full_header.version == 0 {
            let c = read_u32(data, pos)? as u64;
            let m = read_u32(data, pos)? as u64;
            let t = read_u32(data, pos)?;
            let d = read_u32(data, pos)? as u64;
            (c, m, t, d)
        } else {
            return Err(Error::InvalidData("version must be 0 or 1"));
        };
        let language_code = read_u16(data, pos)?;
        let language = language_string(language_code);
        *pos = box_end(p0, size)?;
        Ok(Mdhd {
            version: full_header.version,
            flags: full_header.flags,
            creation_time,
            modification_time,
            timescale,
            duration,
            language,
        })
    }
}

} // verus!
