//! `url `: a data reference; with the self-contained flag set, the media is
//! in this same file.
use vstd::prelude::*;
use crate::mp4::error::Error;
use crate::mp4::stream::{fits, be24, read_bytes};
use crate::mp4::atom::{read_full_header, spec_full_header, box_end, spec_overflow, outcome};
use crate::mp4::atom::hdlr::{c_string, string_until_nul};

verus! {

#[derive(Debug, Clone)]
pub struct Url {
    pub version: u8,
    pub flags: u32,
    pub location: String,
}

pub open spec fn url_res(d: Seq<u8>, p: int, size: u64) -> Result<(), Error> {
    match spec_full_header(d, p) {
        Err(e) => Err(e),
        Ok(fh) => if size < 12 {
            Err(Error::InvalidData("url size too small"))
        } else if !fits(d, p + 4, size - 12) {
            Err(Error::Io)
        } else if p - 8 + size > u64::MAX {
            Err(spec_overflow())
        } else {
            Ok(())
        },
    }
}

pub open spec fn url_rel(d: Seq<u8>, p: int, size: u64, x: Url) -> bool {
    &&& x.version == d[p]
    &&& x.flags == be24(d, p + 1)
    &&& x.location@ == c_string(d.subrange(p + 4, p + 4 + size - 12))
}

impl Url {
    /// Reads the box whose data starts at the position, and moves to its end.
    pub fn read(data: &[u8], pos: &mut u64, size: u64) -> (r: Result<Self, Error>)
        requires
            *old(pos) >= 8,
        ensures
            outcome(r, url_res(data@, *old(pos) as int, size), |x: Url| url_rel(data@, *old(pos) as int, size, x)),
            r is Ok ==> *final(pos) == *old(pos) - 8 + size,
    {
        let p0 = *pos;
        let full_header = read_full_header(data, pos)?;
        if size < 12 {
            return Err(Error::InvalidData("url size too small"));
        }
        let buf = read_bytes(data, pos, size - 12)?;
        let location = string_until_nul(buf);
        *pos = box_end(p0, size)?;
        Ok(Url { version: full_header.version, flags: full_header.flags, location })
    }
}

} // verus!
