//! H.265 / HEVC: NAL unit types and the parameter sets a decoder starts from.
use vstd::prelude::*;
use crate::nalu::Nalu;

pub mod rtp;

verus! {

/// H.265 NAL unit type.
#[derive(Debug, Clone, Copy, PartialEq, Eq, Structural)]
pub enum NaluType {
    Unknown(u8),
    Vps,
    Sps,
    Pps,
    Aud,
    PrefixSei,
    SuffixSei,
}

pub open spec fn spec_nalu_type_from(v: u8) -> NaluType {
    match v {
        32u8 => NaluType::Vps,
        33u8 => NaluType::Sps,
        34u8 => NaluType::Pps,
        35u8 => NaluType::Aud,
        39u8 => NaluType::PrefixSei,
        40u8 => NaluType::SuffixSei,
        _ => NaluType::Unknown(v),
    }
}

impl vstd::std_specs::convert::FromSpecImpl<u8> for NaluType {
    open spec fn obeys_from_spec() -> bool {
        true
    }

    open spec fn from_spec(v: u8) -> Self {
        spec_nalu_type_from(v)
    }
}

impl From<u8> for NaluType {
    fn from(v: u8) -> (r: Self) {
        match v {
            32 => NaluType::Vps,
            33 => NaluType::Sps,
            34 => NaluType::Pps,
            35 => NaluType::Aud,
            39 => NaluType::PrefixSei,
            40 => NaluType::SuffixSei,
            _ => NaluType::Unknown(v),
        }
    }
}

/// What a decoder needs to start an H.265 stream.
#[derive(Debug, Clone)]
pub struct Parameters {
    pub sps: Vec<Nalu>,
    pub pps: Vec<Nalu>,
    pub vps: Vec<Nalu>,
}

} // verus!
