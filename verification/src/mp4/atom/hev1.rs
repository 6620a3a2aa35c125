//! `hev1` and `hvcC`: the sample entry of an H.265 track and its decoder
//! configuration, with the parameter-set arrays.
use vstd::prelude::*;
use crate::codec::h265;
use crate::fourcc::spec_from_u32;
use crate::mp4::error::Error;
use crate::mp4::stream::{fits, be16, be32, be48, read_u8, read_u16, read_u32, read_u48, read_u64, skip_bytes};
use crate::mp4::atom::{read_header, spec_header, box_end, spec_overflow, outcome, read_nalus, spec_nalus};
use crate::mp4::atom::constant_name::HVCC;
use crate::nalu::{Nalu, nalu_views};
use crate::types::FixedU16;

verus! {

#[derive(Debug, Clone)]
pub struct HvcCArray {
    pub completeness: bool,
    pub nalu_type: h265::NaluType,
    pub nalus: Vec<Nalu>,
}

#[derive(Debug, Clone)]
pub struct HvcC {
    pub configuration_version: u8,
    pub general_profile_space: u8,
    pub general_tier_flag: bool,
    pub general_profile_idc: u8,
    pub general_profile_compatibility_flags: u32,
    pub general_constraint_indicator_flag: u64,
    pub general_level_idc: u8,
    pub min_spatial_segmentation_idc: u16,
    pub parallelism_type: u8,
    pub chroma_format_idc: u8,
    pub bit_depth_luma_minus8: u8,
    pub bit_depth_chroma_minus8: u8,
    pub avg_frame_rate: u16,
    pub constant_frame_rate: u8,
    pub num_temporal_layers: u8,
    pub temporal_id_nested: bool,
    pub length_size_minus_one: u8,
    pub arrays: Vec<HvcCArray>,
}

/// The `n` parameter-set arrays stored at `p`, each a header byte, a 16-bit
/// count and that many length-prefixed units, and where they end.
pub open spec fn spec_arrays(d: Seq<u8>, p: int, n: nat) -> Result<(Seq<(u8, Seq<Seq<u8>>)>, int), Error>
    decreases n,
{
    if n == 0 {
        Ok((seq![], p))
    } else {
        match spec_arrays(d, p, (n - 1) as nat) {
            Err(e) => Err(e),
            Ok((s, q)) => if !fits(d, q, 3) {
                Err(Error::Io)
            } else {
                match spec_nalus(d, q + 3, be16(d, q + 1) as nat) {
                    Err(e) => Err(e),
                    Ok((u, r)) => Ok((s.push((d[q], u)), r)),
                }
            },
        }
    }
}

proof fn lemma_arrays_err(d: Seq<u8>, p: int, i: nat, n: nat)
    requires
        i <= n,
        spec_arrays(d, p, i) is Err,
    ensures
        spec_arrays(d, p, n) == spec_arrays(d, p, i),
    decreases n - i,
{
    if i < n {
        lemma_arrays_err(d, p, i, (n - 1) as nat);
    }
}

/// An array as read: its header byte and its units.
pub open spec fn array_view(a: HvcCArray) -> (bool, h265::NaluType, Seq<Seq<u8>>) {
    (a.completeness, a.nalu_type, nalu_views(a.nalus@))
}

/// What an array's header byte and units give: completeness is the top bit,
/// the unit type the low six.
pub open spec fn array_of(raw: (u8, Seq<Seq<u8>>)) -> (bool, h265::NaluType, Seq<Seq<u8>>) {
    ((raw.0 & 0b10000000) > 0, h265::spec_nalu_type_from(raw.0 & 0b111111), raw.1)
}

pub open spec fn hvcc_res(d: Seq<u8>, p: int) -> Result<(), Error> {
    if !fits(d, p, 23) {
        Err(Error::Io)
    } else {
        match spec_arrays(d, p + 23, d[p + 22] as nat) {
            Err(e) => Err(e),
            Ok(_) => Ok(()),
        }
    }
}

/// The field extractions are those of the reader: `&` binds looser than `>>`,
/// so `params & 0b11000000 >> 6` keeps the low two bits.
pub open spec fn hvcc_rel(d: Seq<u8>, p: int, x: HvcC) -> bool {
    let params = d[p + 1];
    let params2 = d[p + 21];
    let arrays = spec_arrays(d, p + 23, d[p + 22] as nat)->Ok_0.0;
    &&& x.configuration_version == d[p]
    &&& x.general_profile_space == params & 0b11000000u8 >> 6u8
    &&& x.general_tier_flag == ((params & 0b00100000u8 >> 5u8) > 0)
    &&& x.general_profile_idc == params & 0b00011111
    &&& x.general_profile_compatibility_flags == be32(d, p + 2)
    &&& x.general_constraint_indicator_flag == be48(d, p + 6)
    &&& x.general_level_idc == d[p + 12]
    &&& x.min_spatial_segmentation_idc == be16(d, p + 13) & 0x0FFF
    &&& x.parallelism_type == d[p + 15] & 0b11
    &&& x.chroma_format_idc == d[p + 16] & 0b11
    &&& x.bit_depth_luma_minus8 == d[p + 17] & 0b111
    &&& x.bit_depth_chroma_minus8 == d[p + 18] & 0b111
    &&& x.avg_frame_rate == be16(d, p + 19)
    &&& x.constant_frame_rate == params2 & 0b11000000u8 >> 6u8
    &&& x.num_temporal_layers == params2 & 0b00111000u8 >> 3u8
    &&& x.temporal_id_nested == ((params2 & 0b00000100u8 >> 2u8) > 0)
    &&& x.length_size_minus_one == params2 & 0b000011
    &&& x.arrays@.len() == arrays.len()
    &&& forall|i: int| 0 <= i < arrays.len() ==> #[trigger] array_view(x.arrays@[i]) == array_of(arrays[i])
}

/// The units of every array of type `t`, in order.
pub open spec fn units_of_type(arrays: Seq<HvcCArray>, t: h265::NaluType) -> Seq<Seq<u8>>
    decreases arrays.len(),
{
    if arrays.len() == 0 {
        seq![]
    } else {
        let last = arrays.last();
        units_of_type(arrays.drop_last(), t) + if last.nalu_type == t {
            nalu_views(last.nalus@)
        } else {
            seq![]
        }
    }
}

impl HvcC {
    /// Reads the configuration at the position; it has no size of its own to
    /// move to, so the position ends after its last array.
    pub fn read(data: &[u8], pos: &mut u64, _size: u64) -> (r: Result<Self, Error>)
        ensures
            outcome(r, hvcc_res(data@, *old(pos) as int), |x: HvcC| hvcc_rel(data@, *old(pos) as int, x)),
            r is Ok ==> *final(pos) == spec_arrays(data@, *old(pos) + 23, data@[*old(pos) + 22] as nat)->Ok_0.1,
    {
        let ghost p = *pos as int;
        let configuration_version = read_u8(data, pos)?;
        let params = read_u8(data, pos)?;
        let general_profile_space = params & 0b11000000u8 >> 6u8;
        let general_tier_flag = (params & 0b00100000u8 >> 5u8) > 0;
        let general_profile_idc = params & 0b00011111;
        let general_profile_compatibility_flags = read_u32(data, pos)?;
        let general_constraint_indicator_flag = read_u48(data, pos)?;
        let general_level_idc = read_u8(data, pos)?;
        let min_spatial_segmentation_idc = read_u16(data, pos)? & 0x0FFF;
        let parallelism_type = read_u8(data, pos)? & 0b11;
        let chroma_format_idc = read_u8(data, pos)? & 0b11;
        let bit_depth_luma_minus8 = read_u8(data, pos)? & 0b111;
        let bit_depth_chroma_minus8 = read_u8(data, pos)? & 0b111;
        let avg_frame_rate = read_u16(data, pos)?;
        let params2 = read_u8(data, pos)?;
        let constant_frame_rate = params2 & 0b11000000u8 >> 6u8;
        let num_temporal_layers = params2 & 0b00111000u8 >> 3u8;
        let temporal_id_nested = (params2 & 0b00000100u8 >> 2u8) > 0;
        let length_size_minus_one = params2 & 0b000011;
        let num_of_arrays = read_u8(data, pos)?;
        let mut arrays: Vec<HvcCArray> = Vec::new();
        let mut i: u8 = 0;
        while i < num_of_arrays
            invariant
                p == *old(pos),
                fits(data@, p, 23),
                num_of_arrays == data@[p + 22],
                i <= num_of_arrays,
                spec_arrays(data@, p + 23, i as nat) matches Ok((raw, q)) && q == *pos && raw.len()
                    == arrays@.len() && forall|j: int|
                    0 <= j < raw.len() ==> #[trigger] array_view(arrays@[j]) == array_of(raw[j]),
            decreases num_of_arrays - i,
        {
            let array_params = match read_u8(data, pos) {
                Ok(v) => v,
                Err(e) => {
                    proof { lemma_arrays_err(data@, p + 23, (i + 1) as nat, num_of_arrays as nat); }
                    return Err(e);
                },
            };
            let num_nalus = match read_u16(data, pos) {
                Ok(v) => v,
                Err(e) => {
                    proof { lemma_arrays_err(data@, p + 23, (i + 1) as nat, num_of_arrays as nat); }
                    return Err(e);
                },
            };
            let nalus = match read_nalus(data, pos, num_nalus) {
                Ok(v) => v,
                Err(e) => {
                    proof { lemma_arrays_err(data@, p + 23, (i + 1) as nat, num_of_arrays as nat); }
                    return Err(e);
                },
            };
            arrays.push(
                HvcCArray {
                    completeness: (array_params & 0b10000000) > 0,
                    nalu_type: h265::NaluType::from(array_params & 0b111111),
                    nalus,
                },
            );
            i = i + 1;
        }
        Ok(HvcC {
            configuration_version,
            general_profile_space,
            general_tier_flag,
            general_profile_idc,
            general_profile_compatibility_flags,
            general_constraint_indicator_flag,
            general_level_idc,
            min_spatial_segmentation_idc,
            parallelism_type,
            chroma_format_idc,
            bit_depth_luma_minus8,
            bit_depth_chroma_minus8,
            avg_frame_rate,
            constant_frame_rate,
            num_temporal_layers,
            temporal_id_nested,
            length_size_minus_one,
            arrays,
        })
    }

    /// Every unit of type `t`, from all the arrays holding that type, in order.
    pub fn nalus(&self, t: h265::NaluType) -> (r: Vec<Nalu>)
        ensures
            nalu_views(r@) == units_of_type(self.arrays@, t),
    {
        let mut result: Vec<Nalu> = Vec::new();
        let mut i: usize = 0;
        while i < self.arrays.len()
            invariant
                i <= self.arrays@.len(),
                nalu_views(result@) == units_of_type(self.arrays@.take(i as int), t),
            decreases self.arrays@.len() - i,
        {
            let ghost before = result@;
            let array = &self.arrays[i];
            if array.nalu_type == t {
                let mut k: usize = 0;
                while k < array.nalus.len()
                    invariant
                        k <= array.nalus@.len(),
                        nalu_views(result@) == nalu_views(before) + nalu_views(array.nalus@.take(k as int)),
                    decreases array.nalus@.len() - k,
                {
                    let unit = array.nalus[k].clone();
                    let ghost mid = result@;
                    result.push(unit);
                    proof {
                        assert(nalu_views(result@) =~= nalu_views(mid).push(unit@));
                        assert(nalu_views(array.nalus@.take(k + 1)) =~= nalu_views(array.nalus@.take(k as int)).push(array.nalus@[k as int]@));
                    }
                    k = k + 1;
                }
                proof {
                    assert(array.nalus@.take(k as int) =~= array.nalus@);
                }
            }
            proof {
                assert(self.arrays@.take(i + 1).drop_last() =~= self.arrays@.take(i as int));
            }
            i = i + 1;
        }
        proof {
            assert(self.arrays@.take(i as int) =~= self.arrays@);
        }
        result
    }
}

#[derive(Debug, Clone)]
pub struct Hev1 {
    pub data_reference_index: u16,
    pub width: u16,
    pub height: u16,
    pub horizontal_resolution: FixedU16,
    pub vertical_resolution: FixedU16,
    pub frame_count: u16,
    pub depth: u16,
    pub hvcc: HvcC,
}

pub open spec fn hev1_res(d: Seq<u8>, p: int, size: u64) -> Result<(), Error> {
    if !fits(d, p, 78) {
        Err(Error::Io)
    } else {
        match spec_header(d, p + 78) {
            Err(e) => Err(e),
            Ok((h, q)) => if h.size > size {
                Err(Error::InvalidData("hev1 box contains a box with a larger size than it"))
            } else if h.name.spec_value() != HVCC {
                Err(Error::AtomNotFound(spec_from_u32(HVCC)))
            } else if hvcc_res(d, q) is Err {
                hvcc_res(d, q)
            } else if p - 8 + size > u64::MAX {
                Err(spec_overflow())
            } else {
                Ok(())
            },
        }
    }
}

pub open spec fn hev1_rel(d: Seq<u8>, p: int, size: u64, x: Hev1) -> bool {
    let (h, q) = spec_header(d, p + 78)->Ok_0;
    &&& x.data_reference_index == be16(d, p + 6)
    &&& x.width == be16(d, p + 24)
    &&& x.height == be16(d, p + 26)
    &&& x.horizontal_resolution == FixedU16(be32(d, p + 28))
    &&& x.vertical_resolution == FixedU16(be32(d, p + 32))
    &&& x.frame_count == be16(d, p + 40)
    &&& x.depth == be16(d, p + 74)
    &&& hvcc_rel(d, q, x.hvcc)
}

impl Hev1 {
    /// Reads the box whose data starts at the position, and moves to its end.
    /// Its first child must be the `hvcC` configuration.
    pub fn read(data: &[u8], pos: &mut u64, size: u64) -> (r: Result<Self, Error>)
        requires
            *old(pos) >= 8,
        ensures
            outcome(r, hev1_res(data@, *old(pos) as int, size), |x: Hev1| hev1_rel(data@, *old(pos) as int, size, x)),
            r is Ok ==> *final(pos) == *old(pos) - 8 + size,
    {
        let p0 = *pos;
        read_u32(data, pos)?;  // reserved
        read_u16(data, pos)?;  // reserved
        let data_reference_index = read_u16(data, pos)?;
        read_u32(data, pos)?;  // pre-defined, reserved
        read_u64(data, pos)?;  // pre-defined
        read_u32(data, pos)?;  // pre-defined
        let width = read_u16(data, pos)?;
        let height = read_u16(data, pos)?;
        let horizontal_resolution = FixedU16::from_raw(read_u32(data, pos)?);
        let vertical_resolution = FixedU16::from_raw(read_u32(data, pos)?);
        read_u32(data, pos)?;  // reserved
        let frame_count = read_u16(data, pos)?;
        skip_bytes(data, pos, 32)?;  // compressorname
        let depth = read_u16(data, pos)?;
        read_u16(data, pos)?;  // pre-defined
        let header = read_header(data, pos)?;
        if header.size > size {
            return Err(Error::InvalidData("hev1 box contains a box with a larger size than it"));
        }
        if header.name.value() == HVCC {
            let hvcc = HvcC::read(data, pos, header.size)?;
            *pos = box_end(p0, size)?;
            Ok(Hev1 {
                data_reference_index,
                width,
                height,
                horizontal_resolution,
                vertical_resolution,
                frame_count,
                depth,
                hvcc,
            })
        } else {
            Err(Error::AtomNotFound(crate::fourcc::FourCC::from_u32(HVCC)))
        }
    }
}

} // verus!
