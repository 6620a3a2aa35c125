//! H.264 / AVC: profiles, NAL unit types and the parameter sets a decoder
//! starts from.
use vstd::prelude::*;
use crate::nalu::Nalu;

pub mod rtp;

verus! {

/// H.264 profile, from `profile_idc` and the constraint flags.
#[derive(Debug, PartialEq, Eq, Clone, Copy, Structural)]
pub enum Profile {
    Unknown(u8, bool),
    ConstrainedBaseline,
    Baseline,
    Main,
    Extended,
    High,
}

/// The profile `profile_idc` and the constraint-flags byte name: baseline is
/// constrained when `constraint_set1_flag`, bit 0x40, is set.
pub open spec fn spec_profile_from(profile: u8, flags: u8) -> Profile {
    let constrained = flags & 0x40 != 0;
    if profile == 66 && constrained {
        Profile::ConstrainedBaseline
    } else if profile == 66 {
        Profile::Baseline
    } else if profile == 77 {
        Profile::Main
    } else if profile == 88 {
        Profile::Extended
    } else if profile == 100 {
        Profile::High
    } else {
        Profile::Unknown(profile, constrained)
    }
}

impl vstd::std_specs::convert::FromSpecImpl<(u8, u8)> for Profile {
    open spec fn obeys_from_spec() -> bool {
        true
    }

    open spec fn from_spec(v: (u8, u8)) -> Self {
        spec_profile_from(v.0, v.1)
    }
}

impl From<(u8, u8)> for Profile {
    fn from(value: (u8, u8)) -> (r: Profile) {
        let profile: u8 = value.0;
        let constrained = value.1 & 0x40 != 0;
        if profile == 66 && constrained {
            Profile::ConstrainedBaseline
        } else if profile == 66 {
            Profile::Baseline
        } else if profile == 77 {
            Profile::Main
        } else if profile == 88 {
            Profile::Extended
        } else if profile == 100 {
            Profile::High
        } else {
            Profile::Unknown(profile, constrained)
        }
    }
}

/// H.264 NAL unit type.
#[derive(Debug, Clone, Copy, PartialEq, Eq, Structural)]
pub enum NaluType {
    Unknown(u8),
    Slice,
    Idr,
    Sei,
    Sps,
    Pps,
    Aud,
}

pub open spec fn spec_nalu_type_from(v: u8) -> NaluType {
    match v {
        1u8 => NaluType::Slice,
        5u8 => NaluType::Idr,
        6u8 => NaluType::Sei,
        7u8 => NaluType::Sps,
        8u8 => NaluType::Pps,
        9u8 => NaluType::Aud,
        _ => NaluType::Unknown(v),
    }
}

impl vstd::std_specs::convert::FromSpecImpl<u8> for NaluType {
    open spec fn obeys_from_spec() -> bool {
        true
    }

    open spec fn from_spec(v: u8) -> Self {
        spec_nalu_type_from(v)
    }
}

impl From<u8> for NaluType {
    fn from(v: u8) -> (r: Self) {
        match v {
            1 => NaluType::Slice,
            5 => NaluType::Idr,
            6 => NaluType::Sei,
            7 => NaluType::Sps,
            8 => NaluType::Pps,
            9 => NaluType::Aud,
            _ => NaluType::Unknown(v),
        }
    }
}

/// What a decoder needs to start an H.264 stream.
#[derive(Debug, Clone)]
pub struct Parameters {
    pub profile: Profile,
    pub sps: Vec<Nalu>,
    pub pps: Vec<Nalu>,
}

} // verus!
