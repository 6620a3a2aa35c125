//! `edts`: the edit box, holding a track's edit list.
use vstd::prelude::*;
use crate::mp4::error::Error;
use crate::mp4::atom::{read_header, spec_header, box_end, spec_overflow, outcome};
use crate::mp4::atom::constant_name::EDTS;
use crate::mp4::atom::elst::{Elst, elst_res, elst_rel};

verus! {

#[derive(Debug, Clone)]
pub struct Edts {
    pub elst: Option<Elst>,
}

pub open spec fn edts_res(d: Seq<u8>, p: int, size: u64) -> Result<(), Error> {
    match spec_header(d, p) {
        Err(e) => Err(e),
        Ok((h, q)) => if h.size > size {
            Err(Error::InvalidData("edts box contains a box with a larger size than it"))
        } else if h.name.spec_value() == EDTS && elst_res(d, q, h.size) is Err {
            elst_res(d, q, h.size)
        } else if p - 8 + size > u64::MAX {
            Err(spec_overflow())
        } else {
            Ok(())
        },
    }
}

/// The edit list is read only from a child named `edts`, as this reader has
/// always done; an `elst` child is passed over.
pub open spec fn edts_rel(d: Seq<u8>, p: int, size: u64, x: Edts) -> bool {
    let (h, q) = spec_header(d, p)->Ok_0;
    if h.name.spec_value() == EDTS {
        x.elst matches Some(e) && elst_rel(d, q, h.size, e)
    } else {
        x.elst is None
    }
}

impl Edts {
    /// Reads the box whose data starts at the position, and moves to its end.
    pub fn read(data: &[u8], pos: &mut u64, size: u64) -> (r: Result<Self, Error>)
        requires
            *old(pos) >= 8,
        ensures
            outcome(r, edts_res(data@, *old(pos) as int, size), |x: Edts| edts_rel(data@, *old(pos) as int, size, x)),
            r is Ok ==> *final(pos) == *old(pos) - 8 + size,
    {
        let p0 = *pos;
        let mut edts = Edts { elst: None };
        let header = read_header(data, pos)?;
        if header.size > size {
            return Err(Error::InvalidData("edts box contains a box with a larger size than it"));
        }
        if header.name.value() == EDTS {
            let elst = Elst::read(data, pos, header.size)?;
            edts.elst = Some(elst);
        }
        *pos = box_end(p0, size)?;
        Ok(edts)
    }
}

} // verus!
