//! `vp09` and `vpcC`: the sample entry of a VP9 track and its codec
//! configuration.
use vstd::prelude::*;
use crate::mp4::error::Error;
use crate::mp4::stream::{fits, be16, be24, read_u8, read_u16, read_array};
use crate::mp4::atom::{read_full_header, spec_full_header, read_header, spec_header, box_end, spec_overflow, outcome};

verus! {

#[derive(Debug, Clone, Copy, PartialEq, Eq, Structural)]
pub struct Vpcc {
    pub version: u8,
    pub flags: u32,
    pub profile: u8,
    pub level: u8,
    pub bit_depth: u8,
    pub chroma_subsampling: u8,
    pub video_full_range_flag: bool,
    pub color_primaries: u8,
    pub transfer_characteristics: u8,
    pub matrix_coefficients: u8,
    pub codec_initialization_data_size: u16,
}

pub open spec fn vpcc_res(d: Seq<u8>, p: int, size: u64) -> Result<(), Error> {
    match spec_full_header(d, p) {
        Err(e) => Err(e),
        Ok(fh) => if !fits(d, p + 4, 7) {
            Err(Error::Io)
        } else if p - 8 + size > u64::MAX {
            Err(spec_overflow())
        } else {
            Ok(())
        },
    }
}

/// The depth, subsampling and range flag share one byte: four, three and one
/// bits. The colour primaries are not read and stay 0.
pub open spec fn vpcc_rel(d: Seq<u8>, p: int, size: u64, x: Vpcc) -> bool {
    let b = d[p + 6];
    x == Vpcc {
        version: d[p],
        flags: be24(d, p + 1),
        profile: d[p + 4],
        level: d[p + 5],
        bit_depth: b >> 4u8,
        chroma_subsampling: (b << 4u8) >> 5u8,
        video_full_range_flag: b & 0x01 == 1,
        color_primaries: 0,
        transfer_characteristics: d[p + 7],
        matrix_coefficients: d[p + 8],
        codec_initialization_data_size: be16(d, p + 9),
    }
}

impl Vpcc {
    /// Reads the box whose data starts at the position, and moves to its end.
    pub fn read(data: &[u8], pos: &mut u64, size: u64) -> (r: Result<Self, Error>)
        requires
            *old(pos) >= 8,
        ensures
            outcome(r, vpcc_res(data@, *old(pos) as int, size), |x: Vpcc| vpcc_rel(data@, *old(pos) as int, size, x)),
            r is Ok ==> *final(pos) == *old(pos) - 8 + size,
    {
        let p0 = *pos;
        let full_header = read_full_header(data, pos)?;
        let profile = read_u8(data, pos)?;
        let level = read_u8(data, pos)?;
        let b = read_u8(data, pos)?;
        let bit_depth = b >> 4u8;
        let chroma_subsampling = (b << 4u8) >> 5u8;
        let video_full_range_flag = b & 0x01 == 1;
        let transfer_characteristics = read_u8(data, pos)?;
        let matrix_coefficients = read_u8(data, pos)?;
        let codec_initialization_data_size = read_u16(data, pos)?;
        *pos = box_end(p0, size)?;
        Ok(Vpcc {
            version: full_header.version,
            flags: full_header.flags,
            profile,
            level,
            bit_depth,
            chroma_subsampling,
            video_full_range_flag,
            color_primaries: 0,
            transfer_characteristics,
            matrix_coefficients,
            codec_initialization_data_size,
        })
    }
}

#[derive(Debug, Clone, Copy)]
pub struct Vp09 {
    pub version: u8,
    pub flags: u32,
    pub start_code: u16,
    pub data_reference_index: u16,
    pub reserved0: [u8; 16],
    pub width: u16,
    pub height: u16,
    pub horizontal_resolution: (u16, u16),
    pub vertical_resolution: (u16, u16),
    pub reserved1: [u8; 4],
    pub frame_count: u16,
    pub compressor_name: [u8; 32],
    pub depth: u16,
    pub end_code: u16,
    pub vpcc: Vpcc,
}

pub open spec fn vp09_res(d: Seq<u8>, p: int, size: u64) -> Result<(), Error> {
    match spec_full_header(d, p) {
        Err(e) => Err(e),
        Ok(fh) => if !fits(d, p + 4, 74) {
            Err(Error::Io)
        } else {
            match spec_header(d, p + 78) {
                Err(e) => Err(e),
                Ok((h, q)) => if h.size > size {
                    Err(Error::InvalidData("vp09 box contains a box with a larger size than it"))
                } else if vpcc_res(d, q, h.size) is Err {
                    vpcc_res(d, q, h.size)
                } else if p - 8 + size > u64::MAX {
                    Err(spec_overflow())
                } else {
                    Ok(())
                },
            }
        },
    }
}

/// The configuration is read from the first child, whatever its name.
pub open spec fn vp09_rel(d: Seq<u8>, p: int, size: u64, x: Vp09) -> bool {
    let q = p + 4;
    let (h, c) = spec_header(d, p + 78)->Ok_0;
    &&& x.version == d[p]
    &&& x.flags == be24(d, p + 1)
    &&& x.start_code == be16(d, q)
    &&& x.data_reference_index == be16(d, q + 2)
    &&& x.reserved0@ == d.subrange(q + 4, q + 20)
    &&& x.width == be16(d, q + 20)
    &&& x.height == be16(d, q + 22)
    &&& x.horizontal_resolution == (be16(d, q + 24), be16(d, q + 26))
    &&& x.vertical_resolution == (be16(d, q + 28), be16(d, q + 30))
    &&& x.reserved1@ == d.subrange(q + 32, q + 36)
    &&& x.frame_count == be16(d, q + 36)
    &&& x.compressor_name@ == d.subrange(q + 38, q + 70)
    &&& x.depth == be16(d, q + 70)
    &&& x.end_code == be16(d, q + 72)
    &&& vpcc_rel(d, c, h.size, x.vpcc)
}

impl Vp09 {
    /// Reads the box whose data starts at the position, and moves to its end.
    pub fn read(data: &[u8], pos: &mut u64, size: u64) -> (r: Result<Self, Error>)
        requires
            *old(pos) >= 8,
        ensures
            outcome(r, vp09_res(data@, *old(pos) as int, size), |x: Vp09| vp09_rel(data@, *old(pos) as int, size, x)),
            r is Ok ==> *final(pos) == *old(pos) - 8 + size,
    {
        let p0 = *pos;
        let full_header = read_full_header(data, pos)?;
        let start_code = read_u16(data, pos)?;
        let data_reference_index = read_u16(data, pos)?;
        let reserved0: [u8; 16] = read_array(data, pos)?;
        let width = read_u16(data, pos)?;
        let height = read_u16(data, pos)?;
        let h0 = read_u16(data, pos)?;
        let h1 = read_u16(data, pos)?;
        let v0 = read_u16(data, pos)?;
        let v1 = read_u16(data, pos)?;
        let reserved1: [u8; 4] = read_array(data, pos)?;
        let frame_count = read_u16(data, pos)?;
        let compressor_name: [u8; 32] = read_array(data, pos)?;
        let depth = read_u16(data, pos)?;
        let end_code = read_u16(data, pos)?;
        let header = read_header(data, pos)?;
        if header.size > size {
            return Err(Error::InvalidData("vp09 box contains a box with a larger size than it"));
        }
        let vpcc = Vpcc::read(data, pos, header.size)?;
        *pos = box_end(p0, size)?;
        Ok(Vp09 {
            version: full_header.version,
            flags: full_header.flags,
            start_code,
            data_reference_index,
            reserved0,
            width,
            height,
            horizontal_resolution: (h0, h1),
            vertical_resolution: (v0, v1),
            reserved1,
            frame_count,
            compressor_name,
            depth,
            end_code,
            vpcc,
        })
    }
}

} // verus!
