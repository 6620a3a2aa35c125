//! `avc1` and `avcC`: the sample entry of an H.264 track and its decoder
//! configuration, with the parameter sets.
use vstd::prelude::*;
use crate::fourcc::spec_from_u32;
use crate::mp4::error::Error;
use crate::mp4::stream::{fits, be16, be32, read_u8, read_u16, read_u32, read_u64, skip_bytes};
use crate::mp4::atom::{read_header, spec_header, box_end, spec_overflow, spec_stuck, outcome, read_nalus, spec_nalus, dist};
use crate::mp4::atom::constant_name::AVCC;
use crate::nalu::{Nalu, nalu_views};
use crate::types::FixedU16;

verus! {

#[derive(Debug, Clone)]
pub struct AvcC {
    pub configuration_version: u8,
    pub avc_profile_indication: u8,
    pub profile_compatibility: u8,
    pub avc_level_indication: u8,
    pub length_size_minus_one: u8,
    pub sequence_parameter_sets: Vec<Nalu>,
    pub picture_parameter_sets: Vec<Nalu>,
}

pub open spec fn avcc_res(d: Seq<u8>, p: int, size: u64) -> Result<(), Error> {
    if !fits(d, p, 6) {
        Err(Error::Io)
    } else {
        match spec_nalus(d, p + 6, (d[p + 5] & 0x1F) as nat) {
            Err(e) => Err(e),
            Ok((_, q)) => if !fits(d, q, 1) {
                Err(Error::Io)
            } else {
                match spec_nalus(d, q + 1, d[q] as nat) {
                    Err(e) => Err(e),
                    Ok(_) => if p - 8 + size > u64::MAX {
                        Err(spec_overflow())
                    } else {
                        Ok(())
                    },
                }
            },
        }
    }
}

pub open spec fn avcc_rel(d: Seq<u8>, p: int, size: u64, x: AvcC) -> bool {
    let (sps, q) = spec_nalus(d, p + 6, (d[p + 5] & 0x1F) as nat)->Ok_0;
    &&& x.configuration_version == d[p]
    &&& x.avc_profile_indication == d[p + 1]
    &&& x.profile_compatibility == d[p + 2]
    &&& x.avc_level_indication == d[p + 3]
    &&& x.length_size_minus_one == d[p + 4] & 0x3
    &&& nalu_views(x.sequence_parameter_sets@) == sps
    &&& nalu_views(x.picture_parameter_sets@) == spec_nalus(d, q + 1, d[q] as nat)->Ok_0.0
}

impl AvcC {
    /// Reads the box whose data starts at the position, and moves to its end.
    pub fn read(data: &[u8], pos: &mut u64, size: u64) -> (r: Result<Self, Error>)
        requires
            *old(pos) >= 8,
        ensures
            outcome(r, avcc_res(data@, *old(pos) as int, size), |x: AvcC| avcc_rel(data@, *old(pos) as int, size, x)),
            r is Ok ==> *final(pos) == *old(pos) - 8 + size,
    {
        let p0 = *pos;
        let configuration_version = read_u8(data, pos)?;
        let avc_profile_indication = read_u8(data, pos)?;
        let profile_compatibility = read_u8(data, pos)?;
        let avc_level_indication = read_u8(data, pos)?;
        let length_size_minus_one = read_u8(data, pos)? & 0x3;
        let num_of_spss = read_u8(data, pos)? & 0x1F;
        let sequence_parameter_sets = read_nalus(data, pos, num_of_spss as u16)?;
        let num_of_ppss = read_u8(data, pos)?;
        let picture_parameter_sets = read_nalus(data, pos, num_of_ppss as u16)?;
        *pos = box_end(p0, size)?;
        Ok(AvcC {
            configuration_version,
            avc_profile_indication,
            profile_compatibility,
            avc_level_indication,
            length_size_minus_one,
            sequence_parameter_sets,
            picture_parameter_sets,
        })
    }
}

#[derive(Debug, Clone)]
pub struct Avc1 {
    pub data_reference_index: u16,
    pub width: u16,
    pub height: u16,
    pub horizontal_resolution: FixedU16,
    pub vertical_resolution: FixedU16,
    pub frame_count: u16,
    pub depth: u16,
    pub avcc: AvcC,
}

/// Looks for the `avcC` child from `cur` on, passing over the others, and
/// gives where its data starts and its size.
pub open spec fn avc1_search(d: Seq<u8>, cur: int, end: int, size: u64) -> Result<(int, u64), Error>
    decreases dist(cur, end),
{
    if cur >= end {
        Err(Error::AtomNotFound(spec_from_u32(AVCC)))
    } else {
        match spec_header(d, cur) {
            Err(e) => Err(e),
            Ok((h, q)) => if h.size > size {
                Err(Error::InvalidData("avc1 box contains a box with a larger size than it"))
            } else if h.name.spec_value() == AVCC {
                Ok((q, h.size))
            } else if cur + h.size > u64::MAX {
                Err(spec_overflow())
            } else if h.size == 0 {
                Err(spec_stuck())
            } else {
                avc1_search(d, cur + h.size, end, size)
            },
        }
    }
}

/// Where the search for the `avcC` child from `cur` stands when it finds
/// none: at or past `end`, after the last child passed over.
pub open spec fn avc1_search_stop(d: Seq<u8>, cur: int, end: int, size: u64) -> int
    decreases dist(cur, end),
{
    if cur >= end {
        cur
    } else {
        match spec_header(d, cur) {
            Err(_) => cur,
            Ok((h, q)) => if h.size > size || h.name.spec_value() == AVCC || cur + h.size > u64::MAX
                || h.size == 0 {
                cur
            } else {
                avc1_search_stop(d, cur + h.size, end, size)
            },
        }
    }
}

pub open spec fn avc1_res(d: Seq<u8>, p: int, size: u64) -> Result<(), Error> {
    if !fits(d, p, 78) {
        Err(Error::Io)
    } else if p - 8 + size > u64::MAX {
        Err(spec_overflow())
    } else {
        match avc1_search(d, p + 78, p - 8 + size, size) {
            Err(e) => Err(e),
            Ok((q, s)) => avcc_res(d, q, s),
        }
    }
}

pub open spec fn avc1_rel(d: Seq<u8>, p: int, size: u64, x: Avc1) -> bool {
    let (q, s) = avc1_search(d, p + 78, p - 8 + size, size)->Ok_0;
    &&& x.data_reference_index == be16(d, p + 6)
    &&& x.width == be16(d, p + 24)
    &&& x.height == be16(d, p + 26)
    &&& x.horizontal_resolution == FixedU16(be32(d, p + 28))
    &&& x.vertical_resolution == FixedU16(be32(d, p + 32))
    &&& x.frame_count == be16(d, p + 40)
    &&& x.depth == be16(d, p + 74)
    &&& avcc_rel(d, q, s, x.avcc)
}

impl Avc1 {
    /// Reads the box whose data starts at the position, and moves to its end.
    pub fn read(data: &[u8], pos: &mut u64, size: u64) -> (r: Result<Self, Error>)
        requires
            *old(pos) >= 8,
        ensures
            outcome(r, avc1_res(data@, *old(pos) as int, size), |x: Avc1| avc1_rel(data@, *old(pos) as int, size, x)),
            r is Ok ==> *final(pos) == *old(pos) - 8 + size,
            fits(data@, *old(pos) as int, 78) && *old(pos) - 8 + size > u64::MAX ==> *final(pos) == *old(pos) + 78,
            fits(data@, *old(pos) as int, 78) && *old(pos) - 8 + size <= u64::MAX && avc1_search(
                data@,
                *old(pos) + 78,
                *old(pos) - 8 + size,
                size,
            ) == Err::<(int, u64), Error>(Error::AtomNotFound(spec_from_u32(AVCC))) ==> *final(pos)
                == avc1_search_stop(data@, *old(pos) + 78, *old(pos) - 8 + size, size),
    {
        let p0 = *pos;
        read_u32(data, pos)?;  // reserved
        read_u16(data, pos)?;  // reserved
        let data_reference_index = read_u16(data, pos)?;
        read_u32(data, pos)?;  // pre-defined, reserved
        read_u64(data, pos)?;  // pre-defined
        read_u32(data, pos)?;  // pre-defined
        let width = read_u16(data, pos)?;
        let height = read_u16(data, pos)?;
        let horizontal_resolution = FixedU16::from_raw(read_u32(data, pos)?);
        let vertical_resolution = FixedU16::from_raw(read_u32(data, pos)?);
        read_u32(data, pos)?;  // reserved
        let frame_count = read_u16(data, pos)?;
        skip_bytes(data, pos, 32)?;  // compressorname
        let depth = read_u16(data, pos)?;
        read_u16(data, pos)?;  // pre-defined
        let end = box_end(p0, size)?;
        let (q, s) = find_avcc(data, pos, end, size)?;
        *pos = q;
        let avcc = AvcC::read(data, pos, s)?;
        *pos = end;
        Ok(Avc1 {
            data_reference_index,
            width,
            height,
            horizontal_resolution,
            vertical_resolution,
            frame_count,
            depth,
            avcc,
        })
    }
}

/// Walks the children from the position to `end` until the `avcC` one,
/// and gives where its data starts and its size.
fn find_avcc(data: &[u8], pos: &mut u64, end: u64, size: u64) -> (r: Result<(u64, u64), Error>)
    ensures
        avc1_search(data@, *old(pos) as int, end as int, size) == match r {
            Ok((q, s)) => Ok((q as int, s)),
            Err(e) => Err(e),
        },
        r matches Ok((q, _)) ==> q >= 8,
        avc1_search(data@, *old(pos) as int, end as int, size) == Err::<(int, u64), Error>(
            Error::AtomNotFound(spec_from_u32(AVCC)),
        ) ==> *final(pos) == avc1_search_stop(data@, *old(pos) as int, end as int, size),
{
    let ghost p = *pos as int;
    loop
        invariant
            p == *old(pos),
            avc1_search(data@, p, end as int, size) == avc1_search(data@, *pos as int, end as int, size),
            avc1_search_stop(data@, p, end as int, size) == avc1_search_stop(data@, *pos as int, end as int, size),
        decreases dist(*pos as int, end as int),
    {
        let current = *pos;
        if current >= end {
            return Err(Error::AtomNotFound(crate::fourcc::FourCC::from_u32(AVCC)));
        }
        let header = read_header(data, pos)?;
        if header.size > size {
            return Err(Error::InvalidData("avc1 box contains a box with a larger size than it"));
        }
        if header.name.value() == AVCC {
            return Ok((*pos, header.size));
        }
        if current > u64::MAX - header.size {
            return Err(Error::InvalidData("box extends past the largest stream position"));
        }
        if header.size == 0 {
            return Err(Error::InvalidData("box does not reach past its own header"));
        }
        *pos = current + header.size;
    }
}

} // verus!
