//! `minf`: the media information box: the media header of the track's
//! kind, where its data is, and its sample table.
use vstd::prelude::*;
use crate::fourcc::{FourCC, spec_from_u32};
use crate::mp4::error::Error;
use crate::mp4::atom::{box_end, spec_overflow, outcome, dist};
use crate::mp4::atom::constant_name::{VMHD, SMHD, DINF, STBL};
use crate::mp4::atom::vmhd::{Vmhd, vmhd_res, vmhd_rel};
use crate::mp4::atom::smhd::{Smhd, smhd_res, smhd_rel};
use crate::mp4::atom::dinf::{Dinf, dinf_res, dinf_rel};
use crate::mp4::atom::stbl::{Stbl, stbl_res, stbl_rel};
use crate::mp4::atom::walk::{walk, walk_end, read_child, skip_child, prepend, ends, last_named, lemma_prepend_step, lemma_prepend_start, lemma_prepend_done, lemma_last_named_push};

verus! {

/// The media information. The `dinf` and `stbl` children are needed.
#[derive(Debug, Clone)]
pub struct Minf {
    pub vmhd: Option<Vmhd>,
    pub smhd: Option<Smhd>,
    pub dinf: Dinf,
    pub stbl: Stbl,
}

/// What reading a child of `minf` gives, and where it leaves the stream.
pub open spec fn minf_check(d: Seq<u8>) -> spec_fn(u32, int, u64) -> Result<int, Error> {
    |n: u32, q: int, s: u64|
        ends(
            if n == VMHD {
                vmhd_res(d, q, s)
            } else if n == SMHD {
                smhd_res(d, q, s)
            } else if n == DINF {
                dinf_res(d, q, s)
            } else if n == STBL {
                stbl_res(d, q, s)
            } else {
                Ok(())
            },
            q,
            s,
        )
}

/// The children of the `minf` box whose data starts at `p`.
pub open spec fn minf_kids(d: Seq<u8>, p: int, size: u64) -> Result<Seq<(u32, int, u64)>, Error> {
    walk(d, p, p - 8 + size, size, "minf box contains a box with a larger size than it", minf_check(d))
}

/// Each field read from the last child of its name, or none where there is
/// no such child.
pub open spec fn minf_fields(d: Seq<u8>, kids: Seq<(u32, int, u64)>, vmhd: Option<Vmhd>, smhd: Option<Smhd>, dinf: Option<Dinf>, stbl: Option<Stbl>) -> bool {
    &&& match last_named(kids, VMHD) {
        None => vmhd is None,
        Some((q, s)) => vmhd matches Some(x) && vmhd_rel(d, q, s, x),
    }
    &&& match last_named(kids, SMHD) {
        None => smhd is None,
        Some((q, s)) => smhd matches Some(x) && smhd_rel(d, q, s, x),
    }
    &&& match last_named(kids, DINF) {
        None => dinf is None,
        Some((q, s)) => dinf matches Some(x) && dinf_rel(d, q, s, x),
    }
    &&& match last_named(kids, STBL) {
        None => stbl is None,
        Some((q, s)) => stbl matches Some(x) && stbl_rel(d, q, s, x),
    }
}

pub open spec fn minf_res(d: Seq<u8>, p: int, size: u64) -> Result<(), Error> {
    if p - 8 + size > u64::MAX {
        Err(spec_overflow())
    } else {
        match minf_kids(d, p, size) {
            Err(e) => Err(e),
            Ok(kids) => if last_named(kids, DINF) is None {
                Err(Error::AtomNotFound(spec_from_u32(DINF)))
            } else if last_named(kids, STBL) is None {
                Err(Error::AtomNotFound(spec_from_u32(STBL)))
            } else {
                Ok(())
            },
        }
    }
}

pub open spec fn minf_rel(d: Seq<u8>, p: int, size: u64, x: Minf) -> bool {
    minf_fields(d, minf_kids(d, p, size)->Ok_0, x.vmhd, x.smhd, Some(x.dinf), Some(x.stbl))
}

impl Minf {
    /// Reads the box whose data starts at the position, and moves to its end.
    #[verifier::rlimit(30)]
    pub fn read(data: &[u8], pos: &mut u64, size: u64) -> (r: Result<Self, Error>)
        requires
            *old(pos) >= 8,
        ensures
            outcome(r, minf_res(data@, *old(pos) as int, size), |x: Minf| minf_rel(data@, *old(pos) as int, size, x)),
            r is Ok ==> *final(pos) == *old(pos) - 8 + size,
            *old(pos) - 8 + size > u64::MAX ==> *final(pos) == *old(pos),
            r is Err && *old(pos) - 8 + size <= u64::MAX && minf_kids(data@, *old(pos) as int, size) is Ok
                ==> *final(pos) == walk_end(data@, *old(pos) as int, *old(pos) - 8 + size, size, "minf box contains a box with a larger size than it", minf_check(data@)),
    {
        let p0 = *pos;
        let end = box_end(p0, size)?;
        let mut vmhd: Option<Vmhd> = None;
        let mut smhd: Option<Smhd> = None;
        let mut dinf: Option<Dinf> = None;
        let mut stbl: Option<Stbl> = None;
        let ghost d = data@;
        let ghost mut kids: Seq<(u32, int, u64)> = Seq::empty();
        proof {
            lemma_prepend_start(minf_kids(d, p0 as int, size));
        }
        while *pos < end
            invariant
                d == data@,
                p0 == *old(pos),
                end == p0 - 8 + size,
                *pos >= 8,
                minf_kids(d, p0 as int, size) == prepend(kids, walk(d, *pos as int, end as int, size, "minf box contains a box with a larger size than it", minf_check(d))),
                walk_end(d, p0 as int, end as int, size, "minf box contains a box with a larger size than it", minf_check(d)) == walk_end(d, *pos as int, end as int, size, "minf box contains a box with a larger size than it", minf_check(d)),
                minf_fields(d, kids, vmhd, smhd, dinf, stbl),
            decreases dist(*pos as int, end as int),
        {
            let current = *pos;
            let header = read_child(data, pos, size, "minf box contains a box with a larger size than it")?;
            let q = *pos;
            let name = header.name.value();
            if name == VMHD {
                vmhd = Some(Vmhd::read(data, pos, header.size)?);
            } else if name == SMHD {
                smhd = Some(Smhd::read(data, pos, header.size)?);
            } else if name == DINF {
                dinf = Some(Dinf::read(data, pos, header.size)?);
            } else if name == STBL {
                stbl = Some(Stbl::read(data, pos, header.size)?);
            } else {
                skip_child(pos, header.size);
            }
            if *pos <= current {
                return Err(Error::InvalidData("box does not reach past its own header"));
            }
            proof {
                let c = (name, q as int, header.size);
                lemma_prepend_step(kids, c, walk(d, *pos as int, end as int, size, "minf box contains a box with a larger size than it", minf_check(d)));
                lemma_last_named_push(kids, c, VMHD);
                lemma_last_named_push(kids, c, SMHD);
                lemma_last_named_push(kids, c, DINF);
                lemma_last_named_push(kids, c, STBL);
                kids = kids.push(c);
            }
        }
        proof {
            lemma_prepend_done(kids);
        }
        let dinf = match dinf {
            None => {
                return Err(Error::AtomNotFound(FourCC::from_u32(DINF)));
            },
            Some(x) => x,
        };
        let stbl = match stbl {
            None => {
                return Err(Error::AtomNotFound(FourCC::from_u32(STBL)));
            },
            Some(x) => x,
        };
        *pos = end;
        Ok(Minf { vmhd, smhd, dinf, stbl })
    }
}

} // verus!
