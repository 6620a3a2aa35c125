//! What can go wrong reading an MP4 file.
use vstd::prelude::*;
use crate::fourcc::FourCC;

verus! {

/// Why an MP4 file, or a sample in it, could not be read.
#[derive(Debug, Clone, Copy)]
pub enum Error {
    /// The stream ended before what was being read did.
    Io,
    InvalidData(&'static str),
    AtomNotFound(FourCC),
    Atom2NotFound(FourCC, FourCC),
    UnsupportedAtomVersion(FourCC, u8),
    TrakNotFound(u32),
    AtomInTrakNotFound(u32, FourCC),
    AtomInStblNotFound(u32, FourCC),
    EntryInStblNotFound(u32, FourCC, u32),
}

} // verus!
