//! `data`: the value of a metadata item, with what kind of value it is.
use vstd::prelude::*;
use crate::mp4::error::Error;
use crate::mp4::stream::{fits, be32, read_u32, read_bytes};
use crate::mp4::atom::outcome;

verus! {

/// The well-known types of a metadata value.
#[derive(Debug, Clone, Copy, PartialEq, Eq, Structural)]
pub enum DataType {
    Binary,
    Text,
    Image,
    TempoCpil,
}

pub open spec fn spec_data_type(value: u32) -> Option<DataType> {
    if value == 0 {
        Some(DataType::Binary)
    } else if value == 1 {
        Some(DataType::Text)
    } else if value == 0x0D {
        Some(DataType::Image)
    } else if value == 0x15 {
        Some(DataType::TempoCpil)
    } else {
        None
    }
}

impl DataType {
    /// The type a `data` box's type code names.
    pub fn try_from_u32(value: u32) -> (r: Result<DataType, Error>)
        ensures
            spec_data_type(value) matches Some(t) ==> r == Ok::<DataType, Error>(t),
            spec_data_type(value) is None ==> r == Err::<DataType, Error>(
                Error::InvalidData("invalid data type"),
            ),
    {
        if value == 0 {
            Ok(DataType::Binary)
        } else if value == 1 {
            Ok(DataType::Text)
        } else if value == 0x0D {
            Ok(DataType::Image)
        } else if value == 0x15 {
            Ok(DataType::TempoCpil)
        } else {
            Err(Error::InvalidData("invalid data type"))
        }
    }
}

/// The metadata items the reader knows.
#[derive(Debug, Clone, Copy, PartialEq, Eq, Hash, Structural)]
pub enum MetadataKey {
    Title,
    Year,
    Poster,
    Summary,
}

#[derive(Debug, Clone)]
pub struct Data {
    pub data: Vec<u8>,
    pub data_type: DataType,
}

pub open spec fn data_res(d: Seq<u8>, p: int, size: u64) -> Result<(), Error> {
    if !fits(d, p, 4) {
        Err(Error::Io)
    } else if spec_data_type(be32(d, p)) is None {
        Err(Error::InvalidData("invalid data type"))
    } else if !fits(d, p + 4, 4) {
        Err(Error::Io)
    } else if size < 16 {
        Err(Error::InvalidData("data box smaller than its header"))
    } else if !fits(d, p + 8, size - 16) {
        Err(Error::Io)
    } else {
        Ok(())
    }
}

pub open spec fn data_rel(d: Seq<u8>, p: int, size: u64, x: Data) -> bool {
    &&& Some(x.data_type) == spec_data_type(be32(d, p))
    &&& x.data@ == d.subrange(p + 8, p + 8 + size - 16)
}

impl Data {
    /// Reads the box whose data starts at the position, up to its end. A box
    /// too small to hold its type and reserved word is refused.
    pub fn read(data: &[u8], pos: &mut u64, size: u64) -> (r: Result<Self, Error>)
        requires
            *old(pos) >= 8,
        ensures
            outcome(r, data_res(data@, *old(pos) as int, size), |x: Data| data_rel(data@, *old(pos) as int, size, x)),
            r is Ok ==> *final(pos) == *old(pos) - 8 + size,
    {
        let data_type = DataType::try_from_u32(read_u32(data, pos)?)?;
        read_u32(data, pos)?;  // reserved
        if size < 16 {
            return Err(Error::InvalidData("data box smaller than its header"));
        }
        let bytes = read_bytes(data, pos, size - 16)?;
        Ok(Data { data: bytes, data_type })
    }
}

} // verus!
