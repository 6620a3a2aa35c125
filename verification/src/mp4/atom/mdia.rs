//! `mdia`: the media box of a track: its header, its handler and its media
//! information.
use vstd::prelude::*;
use crate::fourcc::{FourCC, spec_from_u32};
use crate::mp4::error::Error;
use crate::mp4::atom::{box_end, spec_overflow, outcome, dist};
use crate::mp4::atom::constant_name::{MDHD, HDLR, MINF};
use crate::mp4::atom::mdhd::{Mdhd, mdhd_res, mdhd_rel};
use crate::mp4::atom::hdlr::{Hdlr, hdlr_res, hdlr_rel};
use crate::mp4::atom::minf::{Minf, minf_res, minf_rel};
use crate::mp4::atom::walk::{walk, walk_end, read_child, skip_child, prepend, ends, last_named, lemma_prepend_step, lemma_prepend_start, lemma_prepend_done, lemma_last_named_push};

verus! {

/// The media of a track. All three children are needed.
#[derive(Debug, Clone)]
pub struct Mdia {
    pub mdhd: Mdhd,
    pub hdlr: Hdlr,
    pub minf: Minf,
}

/// What reading a child of `mdia` gives, and where it leaves the stream.
pub open spec fn mdia_check(d: Seq<u8>) -> spec_fn(u32, int, u64) -> Result<int, Error> {
    |n: u32, q: int, s: u64|
        ends(
            if n == MDHD {
                mdhd_res(d, q, s)
            } else if n == HDLR {
                hdlr_res(d, q, s)
            } else if n == MINF {
                minf_res(d, q, s)
            } else {
                Ok(())
            },
            q,
            s,
        )
}

/// The children of the `mdia` box whose data starts at `p`.
pub open spec fn mdia_kids(d: Seq<u8>, p: int, size: u64) -> Result<Seq<(u32, int, u64)>, Error> {
    walk(d, p, p - 8 + size, size, "mdia box contains a box with a larger size than it", mdia_check(d))
}

/// Each field read from the last child of its name, or none where there is
/// no such child.
pub open spec fn mdia_fields(d: Seq<u8>, kids: Seq<(u32, int, u64)>, mdhd: Option<Mdhd>, hdlr: Option<Hdlr>, minf: Option<Minf>) -> bool {
    &&& match last_named(kids, MDHD) {
        None => mdhd is None,
        Some((q, s)) => mdhd matches Some(x) && mdhd_rel(d, q, s, x),
    }
    &&& match last_named(kids, HDLR) {
        None => hdlr is None,
        Some((q, s)) => hdlr matches Some(x) && hdlr_rel(d, q, s, x),
    }
    &&& match last_named(kids, MINF) {
        None => minf is None,
        Some((q, s)) => minf matches Some(x) && minf_rel(d, q, s, x),
    }
}

pub open spec fn mdia_res(d: Seq<u8>, p: int, size: u64) -> Result<(), Error> {
    if p - 8 + size > u64::MAX {
        Err(spec_overflow())
    } else {
        match mdia_kids(d, p, size) {
            Err(e) => Err(e),
            Ok(kids) => if last_named(kids, MDHD) is None {
                Err(Error::AtomNotFound(spec_from_u32(MDHD)))
            } else if last_named(kids, HDLR) is None {
                Err(Error::AtomNotFound(spec_from_u32(HDLR)))
            } else if last_named(kids, MINF) is None {
                Err(Error::AtomNotFound(spec_from_u32(MINF)))
            } else {
                Ok(())
            },
        }
    }
}

pub open spec fn mdia_rel(d: Seq<u8>, p: int, size: u64, x: Mdia) -> bool {
    mdia_fields(d, mdia_kids(d, p, size)->Ok_0, Some(x.mdhd), Some(x.hdlr), Some(x.minf))
}

impl Mdia {
    /// Reads the box whose data starts at the position, and moves to its end.
    #[verifier::rlimit(30)]
    pub fn read(data: &[u8], pos: &mut u64, size: u64) -> (r: Result<Self, Error>)
        requires
            *old(pos) >= 8,
        ensures
            outcome(r, mdia_res(data@, *old(pos) as int, size), |x: Mdia| mdia_rel(data@, *old(pos) as int, size, x)),
            r is Ok ==> *final(pos) == *old(pos) - 8 + size,
            *old(pos) - 8 + size > u64::MAX ==> *final(pos) == *old(pos),
            r is Err && *old(pos) - 8 + size <= u64::MAX && mdia_kids(data@, *old(pos) as int, size) is Ok
                ==> *final(pos) == walk_end(data@, *old(pos) as int, *old(pos) - 8 + size, size, "mdia box contains a box with a larger size than it", mdia_check(data@)),
    {
        let p0 = *pos;
        let end = box_end(p0, size)?;
        let mut mdhd: Option<Mdhd> = None;
        let mut hdlr: Option<Hdlr> = None;
        let mut minf: Option<Minf> = None;
        let ghost d = data@;
        let ghost mut kids: Seq<(u32, int, u64)> = Seq::empty();
        proof {
            lemma_prepend_start(mdia_kids(d, p0 as int, size));
        }
        while *pos < end
            invariant
                d == data@,
                p0 == *old(pos),
                end == p0 - 8 + size,
                *pos >= 8,
                mdia_kids(d, p0 as int, size) == prepend(kids, walk(d, *pos as int, end as int, size, "mdia box contains a box with a larger size than it", mdia_check(d))),
                walk_end(d, p0 as int, end as int, size, "mdia box contains a box with a larger size than it", mdia_check(d)) == walk_end(d, *pos as int, end as int, size, "mdia box contains a box with a larger size than it", mdia_check(d)),
                mdia_fields(d, kids, mdhd, hdlr, minf),
            decreases dist(*pos as int, end as int),
        {
            let current = *pos;
            let header = read_child(data, pos, size, "mdia box contains a box with a larger size than it")?;
            let q = *pos;
            let name = header.name.value();
            if name == MDHD {
                mdhd = Some(Mdhd::read(data, pos, header.size)?);
            } else if name == HDLR {
                hdlr = Some(Hdlr::read(data, pos, header.size)?);
            } else if name == MINF {
                minf = Some(Minf::read(data, pos, header.size)?);
            } else {
                skip_child(pos, header.size);
            }
            if *pos <= current {
                return Err(Error::InvalidData("box does not reach past its own header"));
            }
            proof {
                let c = (name, q as int, header.size);
                lemma_prepend_step(kids, c, walk(d, *pos as int, end as int, size, "mdia box contains a box with a larger size than it", mdia_check(d)));
                lemma_last_named_push(kids, c, MDHD);
                lemma_last_named_push(kids, c, HDLR);
                lemma_last_named_push(kids, c, MINF);
                kids = kids.push(c);
            }
        }
        proof {
            lemma_prepend_done(kids);
        }
        let mdhd = match mdhd {
            None => {
                return Err(Error::AtomNotFound(FourCC::from_u32(MDHD)));
            },
            Some(x) => x,
        };
        let hdlr = match hdlr {
            None => {
                return Err(Error::AtomNotFound(FourCC::from_u32(HDLR)));
            },
            Some(x) => x,
        };
        let minf = match minf {
            None => {
                return Err(Error::AtomNotFound(FourCC::from_u32(MINF)));
            },
            Some(x) => x,
        };
        *pos = end;
        Ok(Mdia { mdhd, hdlr, minf })
    }
}

} // verus!
