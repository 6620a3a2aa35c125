//! `stbl`: the sample table box, holding the tables that locate and time
//! each sample of a track.
use vstd::prelude::*;
use crate::fourcc::{FourCC, spec_from_u32};
use crate::mp4::error::Error;
use crate::mp4::atom::{box_end, spec_overflow, outcome, dist};
use crate::mp4::atom::constant_name::{STSD, STTS, CTTS, STSS, STSC, STSZ, STCO, CO64};
use crate::mp4::atom::stsd::{Stsd, stsd_res, stsd_rel};
use crate::mp4::atom::stts::{Stts, stts_res, stts_rel};
use crate::mp4::atom::ctts::{Ctts, ctts_res, ctts_rel};
use crate::mp4::atom::stss::{Stss, stss_res, stss_rel};
use crate::mp4::atom::stsc::{Stsc, stsc_res, stsc_rel};
use crate::mp4::atom::stsz::{Stsz, stsz_res, stsz_rel};
use crate::mp4::atom::stco::{Stco, stco_res, stco_rel};
use crate::mp4::atom::co64::{Co64, co64_res, co64_rel};
use crate::mp4::atom::walk::{walk, walk_end, read_child, skip_child, prepend, last_named, lemma_prepend_step, ends, lemma_prepend_start, lemma_prepend_done, lemma_last_named_push};

verus! {

/// The sample table. Of each table the last one is kept; the description,
/// the decoding times, the sample-to-chunk table, the sizes and one of the
/// two chunk offset tables are needed.
#[derive(Debug, Clone)]
pub struct Stbl {
    pub stsd: Stsd,
    pub stts: Stts,
    pub ctts: Option<Ctts>,
    pub stss: Option<Stss>,
    pub stsc: Stsc,
    pub stsz: Stsz,
    pub stco: Option<Stco>,
    pub co64: Option<Co64>,
}

/// What reading a child of `stbl` gives.
pub open spec fn stbl_check(d: Seq<u8>) -> spec_fn(u32, int, u64) -> Result<int, Error> {
    |n: u32, q: int, s: u64|
        ends(
            if n == STSD {
                stsd_res(d, q, s)
            } else if n == STTS {
                stts_res(d, q, s)
            } else if n == CTTS {
                ctts_res(d, q, s)
            } else if n == STSS {
                stss_res(d, q, s)
            } else if n == STSC {
                stsc_res(d, q, s)
            } else if n == STSZ {
                stsz_res(d, q, s)
            } else if n == STCO {
                stco_res(d, q, s)
            } else if n == CO64 {
                co64_res(d, q, s)
            } else {
                Ok(())
            },
            q,
            s,
        )
}

/// The children of the `stbl` box whose data starts at `p`.
pub open spec fn stbl_kids(d: Seq<u8>, p: int, size: u64) -> Result<Seq<(u32, int, u64)>, Error> {
    walk(d, p, p - 8 + size, size, "stbl box contains a box with a larger size than it", stbl_check(d))
}

/// Each table read from the last child of its name, or none where there is
/// no such child.
pub open spec fn stbl_fields(d: Seq<u8>, kids: Seq<(u32, int, u64)>, stsd: Option<Stsd>, stts: Option<Stts>, ctts: Option<Ctts>, stss: Option<Stss>, stsc: Option<Stsc>, stsz: Option<Stsz>, stco: Option<Stco>, co64: Option<Co64>) -> bool {
    &&& match last_named(kids, STSD) {
        None => stsd is None,
        Some((q, s)) => stsd matches Some(x) && stsd_rel(d, q, s, x),
    }
    &&& match last_named(kids, STTS) {
        None => stts is None,
        Some((q, s)) => stts matches Some(x) && stts_rel(d, q, s, x),
    }
    &&& match last_named(kids, CTTS) {
        None => ctts is None,
        Some((q, s)) => ctts matches Some(x) && ctts_rel(d, q, s, x),
    }
    &&& match last_named(kids, STSS) {
        None => stss is None,
        Some((q, s)) => stss matches Some(x) && stss_rel(d, q, s, x),
    }
    &&& match last_named(kids, STSC) {
        None => stsc is None,
        Some((q, s)) => stsc matches Some(x) && stsc_rel(d, q, s, x),
    }
    &&& match last_named(kids, STSZ) {
        None => stsz is None,
        Some((q, s)) => stsz matches Some(x) && stsz_rel(d, q, s, x),
    }
    &&& match last_named(kids, STCO) {
        None => stco is None,
        Some((q, s)) => stco matches Some(x) && stco_rel(d, q, s, x),
    }
    &&& match last_named(kids, CO64) {
        None => co64 is None,
        Some((q, s)) => co64 matches Some(x) && co64_rel(d, q, s, x),
    }
}

pub open spec fn stbl_res(d: Seq<u8>, p: int, size: u64) -> Result<(), Error> {
    if p - 8 + size > u64::MAX {
        Err(spec_overflow())
    } else {
        match stbl_kids(d, p, size) {
            Err(e) => Err(e),
            Ok(kids) => if last_named(kids, STSD) is None {
                Err(Error::AtomNotFound(spec_from_u32(STSD)))
            } else if last_named(kids, STTS) is None {
                Err(Error::AtomNotFound(spec_from_u32(STTS)))
            } else if last_named(kids, STSC) is None {
                Err(Error::AtomNotFound(spec_from_u32(STSC)))
            } else if last_named(kids, STSZ) is None {
                Err(Error::AtomNotFound(spec_from_u32(STSZ)))
            } else if last_named(kids, STCO) is None && last_named(kids, CO64) is None {
                Err(Error::Atom2NotFound(spec_from_u32(STCO), spec_from_u32(CO64)))
            } else {
                Ok(())
            },
        }
    }
}

pub open spec fn stbl_rel(d: Seq<u8>, p: int, size: u64, x: Stbl) -> bool {
    stbl_fields(d, stbl_kids(d, p, size)->Ok_0, Some(x.stsd), Some(x.stts), x.ctts, x.stss, Some(x.stsc), Some(x.stsz), x.stco, x.co64)
}

impl Stbl {
    /// Reads the box whose data starts at the position, and moves to its end.
    #[verifier::rlimit(30)]
    pub fn read(data: &[u8], pos: &mut u64, size: u64) -> (r: Result<Self, Error>)
        requires
            *old(pos) >= 8,
        ensures
            outcome(r, stbl_res(data@, *old(pos) as int, size), |x: Stbl| stbl_rel(data@, *old(pos) as int, size, x)),
            r is Ok ==> *final(pos) == *old(pos) - 8 + size,
            *old(pos) - 8 + size > u64::MAX ==> *final(pos) == *old(pos),
            r is Err && *old(pos) - 8 + size <= u64::MAX && stbl_kids(data@, *old(pos) as int, size) is Ok
                ==> *final(pos) == walk_end(data@, *old(pos) as int, *old(pos) - 8 + size, size, "stbl box contains a box with a larger size than it", stbl_check(data@)),
    {
        let p0 = *pos;
        let end = box_end(p0, size)?;
        let mut stsd: Option<Stsd> = None;
        let mut stts: Option<Stts> = None;
        let mut ctts: Option<Ctts> = None;
        let mut stss: Option<Stss> = None;
        let mut stsc: Option<Stsc> = None;
        let mut stsz: Option<Stsz> = None;
        let mut stco: Option<Stco> = None;
        let mut co64: Option<Co64> = None;
        let ghost d = data@;
        let ghost mut kids: Seq<(u32, int, u64)> = Seq::empty();
        proof {
            lemma_prepend_start(stbl_kids(d, p0 as int, size));
        }
        while *pos < end
            invariant
                d == data@,
                p0 == *old(pos),
                end == p0 - 8 + size,
                *pos >= 8,
                stbl_kids(d, p0 as int, size) == prepend(kids, walk(d, *pos as int, end as int, size, "stbl box contains a box with a larger size than it", stbl_check(d))),
                walk_end(d, p0 as int, end as int, size, "stbl box contains a box with a larger size than it", stbl_check(d)) == walk_end(d, *pos as int, end as int, size, "stbl box contains a box with a larger size than it", stbl_check(d)),
                stbl_fields(d, kids, stsd, stts, ctts, stss, stsc, stsz, stco, co64),
            decreases dist(*pos as int, end as int),
        {
            let current = *pos;
            let header = read_child(data, pos, size, "stbl box contains a box with a larger size than it")?;
            let q = *pos;
            let name = header.name.value();
            if name == STSD {
                stsd = Some(Stsd::read(data, pos, header.size)?);
            } else if name == STTS {
                stts = Some(Stts::read(data, pos, header.size)?);
            } else if name == CTTS {
                ctts = Some(Ctts::read(data, pos, header.size)?);
            } else if name == STSS {
                stss = Some(Stss::read(data, pos, header.size)?);
            } else if name == STSC {
                stsc = Some(Stsc::read(data, pos, header.size)?);
            } else if name == STSZ {
                stsz = Some(Stsz::read(data, pos, header.size)?);
            } else if name == STCO {
                stco = Some(Stco::read(data, pos, header.size)?);
            } else if name == CO64 {
                co64 = Some(Co64::read(data, pos, header.size)?);
            } else {
                skip_child(pos, header.size);
            }
            if *pos <= current {
                return Err(Error::InvalidData("box does not reach past its own header"));
            }
            proof {
                let c = (name, q as int, header.size);
                lemma_prepend_step(kids, c, walk(d, *pos as int, end as int, size, "stbl box contains a box with a larger size than it", stbl_check(d)));
                lemma_last_named_push(kids, c, STSD);
                lemma_last_named_push(kids, c, STTS);
                lemma_last_named_push(kids, c, CTTS);
                lemma_last_named_push(kids, c, STSS);
                lemma_last_named_push(kids, c, STSC);
                lemma_last_named_push(kids, c, STSZ);
                lemma_last_named_push(kids, c, STCO);
                lemma_last_named_push(kids, c, CO64);
                kids = kids.push(c);
            }
        }
        proof {
            lemma_prepend_done(kids);
        }
        let stsd = match stsd {
            None => { return Err(Error::AtomNotFound(FourCC::from_u32(STSD))); },
            Some(x) => x,
        };
        let stts = match stts {
            None => { return Err(Error::AtomNotFound(FourCC::from_u32(STTS))); },
            Some(x) => x,
        };
        let stsc = match stsc {
            None => { return Err(Error::AtomNotFound(FourCC::from_u32(STSC))); },
            Some(x) => x,
        };
        let stsz = match stsz {
            None => { return Err(Error::AtomNotFound(FourCC::from_u32(STSZ))); },
            Some(x) => x,
        };
        if stco.is_none() && co64.is_none() {
            return Err(Error::Atom2NotFound(FourCC::from_u32(STCO), FourCC::from_u32(CO64)));
        }
        *pos = end;
        Ok(Stbl { stsd, stts, ctts, stss, stsc, stsz, stco, co64 })
    }
}

} // verus!
