//! How H.264 units are packed into RTP payloads.
use vstd::prelude::*;

verus! {

/// The aggregation and fragmentation unit types of RFC 6184.
#[derive(Debug, Clone, Copy, PartialEq, Eq, Structural)]
pub enum PacketizationType {
    Unknown(u8),
    StapA,
    FuA,
}

pub open spec fn spec_packetization_from(v: u8) -> PacketizationType {
    match v {
        24u8 => PacketizationType::StapA,
        28u8 => PacketizationType::FuA,
        _ => PacketizationType::Unknown(v),
    }
}

impl vstd::std_specs::convert::FromSpecImpl<u8> for PacketizationType {
    open spec fn obeys_from_spec() -> bool {
        true
    }

    open spec fn from_spec(v: u8) -> Self {
        spec_packetization_from(v)
    }
}

impl From<u8> for PacketizationType {
    fn from(v: u8) -> (r: Self) {
        match v {
            24 => PacketizationType::StapA,
            28 => PacketizationType::FuA,
            _ => PacketizationType::Unknown(v),
        }
    }
}

} // verus!
