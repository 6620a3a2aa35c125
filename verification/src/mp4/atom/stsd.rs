//! `stsd`: the sample description box, holding the sample entry that says
//! how the track is coded.
use vstd::prelude::*;
use crate::mp4::error::Error;
use crate::mp4::stream::{fits, read_u32};
use crate::mp4::atom::{read_full_header, spec_full_header, read_header, spec_header, box_end, spec_overflow, outcome};
use crate::mp4::atom::constant_name::{AVC1, HEV1, VP09, MP4A, TX3G};
use crate::mp4::atom::avc1::{Avc1, avc1_res, avc1_rel};
use crate::mp4::atom::hev1::{Hev1, hev1_res, hev1_rel};
use crate::mp4::atom::vp09::{Vp09, vp09_res, vp09_rel};
use crate::mp4::atom::mp4a::{Mp4a, mp4a_res, mp4a_rel};
use crate::mp4::atom::tx3g::{Tx3g, tx3g_res, tx3g_rel};

verus! {

/// The sample description: at most one of the entries this reader knows,
/// the one the box's first entry is.
#[derive(Debug, Clone)]
pub struct Stsd {
    pub version: u8,
    pub flags: u32,
    pub avc1: Option<Avc1>,
    pub hev1: Option<Hev1>,
    pub vp09: Option<Vp09>,
    pub mp4a: Option<Mp4a>,
    pub tx3g: Option<Tx3g>,
}

/// How reading the entry named `n` whose data starts at `q` ends.
pub open spec fn entry_res(d: Seq<u8>, n: u32, q: int, s: u64) -> Result<(), Error> {
    if n == AVC1 {
        avc1_res(d, q, s)
    } else if n == HEV1 {
        hev1_res(d, q, s)
    } else if n == VP09 {
        vp09_res(d, q, s)
    } else if n == MP4A {
        mp4a_res(d, q, s)
    } else if n == TX3G {
        tx3g_res(d, q, s)
    } else {
        Ok(())
    }
}

pub open spec fn stsd_res(d: Seq<u8>, p: int, size: u64) -> Result<(), Error> {
    match spec_full_header(d, p) {
        Err(e) => Err(e),
        Ok(_) => if !fits(d, p + 4, 4) {
            Err(Error::Io)
        } else {
            match spec_header(d, p + 8) {
                Err(e) => Err(e),
                Ok((h, q)) => if h.size > size {
                    Err(Error::InvalidData("stsd box contains a box with a larger size than it"))
                } else if entry_res(d, h.name.spec_value(), q, h.size) is Err {
                    entry_res(d, h.name.spec_value(), q, h.size)
                } else if p - 8 + size > u64::MAX {
                    Err(spec_overflow())
                } else {
                    Ok(())
                },
            }
        },
    }
}

pub open spec fn stsd_rel(d: Seq<u8>, p: int, size: u64, x: Stsd) -> bool {
    let (h, q) = spec_header(d, p + 8)->Ok_0;
    let n = h.name.spec_value();
    let s = h.size;
    &&& x.version == d[p]
    &&& x.flags == spec_full_header(d, p)->Ok_0.flags
    &&& if n == AVC1 { x.avc1 matches Some(e) && avc1_rel(d, q, s, e) } else { x.avc1 is None }
    &&& if n == HEV1 { x.hev1 matches Some(e) && hev1_rel(d, q, s, e) } else { x.hev1 is None }
    &&& if n == VP09 { x.vp09 matches Some(e) && vp09_rel(d, q, s, e) } else { x.vp09 is None }
    &&& if n == MP4A { x.mp4a matches Some(e) && mp4a_rel(d, q, s, e) } else { x.mp4a is None }
    &&& if n == TX3G { x.tx3g matches Some(e) && tx3g_rel(d, q, s, e) } else { x.tx3g is None }
}

impl Stsd {
    /// Reads the box whose data starts at the position, and moves to its end.
    /// Only the first entry is read; the entry count is passed over.
    pub fn read(data: &[u8], pos: &mut u64, size: u64) -> (r: Result<Self, Error>)
        requires
            *old(pos) >= 8,
        ensures
            outcome(r, stsd_res(data@, *old(pos) as int, size), |x: Stsd| stsd_rel(data@, *old(pos) as int, size, x)),
            r is Ok ==> *final(pos) == *old(pos) - 8 + size,
    {
        let p0 = *pos;
        let full_header = read_full_header(data, pos)?;
        read_u32(data, pos)?;
        let mut stsd = Stsd { version: full_header.version, flags: full_header.flags, avc1: None, hev1: None, vp09: None, mp4a: None, tx3g: None };
        let header = read_header(data, pos)?;
        let s = header.size;
        if s > size {
            return Err(Error::InvalidData("stsd box contains a box with a larger size than it"));
        }
        let name = header.name.value();
        if name == AVC1 {
            stsd.avc1 = Some(Avc1::read(data, pos, s)?);
        } else if name == HEV1 {
            stsd.hev1 = Some(Hev1::read(data, pos, s)?);
        } else if name == VP09 {
            stsd.vp09 = Some(Vp09::read(data, pos, s)?);
        } else if name == MP4A {
            stsd.mp4a = Some(Mp4a::read(data, pos, s)?);
        } else if name == TX3G {
            stsd.tx3g = Some(Tx3g::read(data, pos, s)?);
        }
        *pos = box_end(p0, size)?;
        Ok(stsd)
    }
}

} // verus!
