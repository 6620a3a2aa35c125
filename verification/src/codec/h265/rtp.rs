//! How H.265 units are packed into RTP payloads.
use vstd::prelude::*;

verus! {

/// The aggregation and fragmentation unit types of RFC 7798.
#[derive(Debug, Clone, Copy, PartialEq, Eq, Structural)]
pub enum PacketizationType {
    Unknown(u8),
    Ap,
    Fu,
}

pub open spec fn spec_packetization_from(v: u8) -> PacketizationType {
    match v {
        48u8 => PacketizationType::Ap,
        49u8 => PacketizationType::Fu,
        _ => PacketizationType::Unknown(v),
    }
}

impl vstd::std_specs::convert::FromSpecImpl<u8> for PacketizationType {
    open spec fn obeys_from_spec() -> bool {
        true
    }

    open spec fn from_spec(v: u8) -> Self {
        spec_packetization_from(v)
    }
}

impl From<u8> for PacketizationType {
    fn from(v: u8) -> (r: Self) {
        match v {
            48 => PacketizationType::Ap,
            49 => PacketizationType::Fu,
            _ => PacketizationType::Unknown(v),
        }
    }
}

} // verus!
