//! `trak`: a track: its header, its edits, its metadata and its media.
use vstd::prelude::*;
use crate::fourcc::{FourCC, spec_from_u32};
use crate::mp4::error::Error;
use crate::mp4::atom::{box_end, spec_overflow, outcome, dist};
use crate::mp4::atom::constant_name::{TKHD, EDTS, META, MDIA};
use crate::mp4::atom::tkhd::{Tkhd, tkhd_res, tkhd_rel};
use crate::mp4::atom::edts::{Edts, edts_res, edts_rel};
use crate::mp4::atom::meta::{Meta, meta_res, meta_rel, meta_end};
use crate::mp4::atom::mdia::{Mdia, mdia_res, mdia_rel};
use crate::mp4::atom::walk::{walk, walk_end, read_child, skip_child, prepend, ends, last_named, lemma_prepend_step, lemma_prepend_start, lemma_prepend_done, lemma_last_named_push};

verus! {

/// A track. The `tkhd` and `mdia` children are needed.
#[derive(Debug, Clone)]
pub struct Trak {
    pub tkhd: Tkhd,
    pub edts: Option<Edts>,
    pub meta: Option<Meta>,
    pub mdia: Mdia,
}

/// What reading a child of `trak` gives, and where it leaves the stream.
pub open spec fn trak_check(d: Seq<u8>) -> spec_fn(u32, int, u64) -> Result<int, Error> {
    |n: u32, q: int, s: u64|
        if n == META {
            match meta_res(d, q, s) {
                Ok(_) => Ok(meta_end(d, q, s)),
                Err(e) => Err(e),
            }
        } else {
            ends(
                if n == TKHD {
                    tkhd_res(d, q, s)
                } else if n == EDTS {
                    edts_res(d, q, s)
                } else if n == MDIA {
                    mdia_res(d, q, s)
                } else {
                    Ok(())
                },
                q,
                s,
            )
        }
}

/// The children of the `trak` box whose data starts at `p`.
pub open spec fn trak_kids(d: Seq<u8>, p: int, size: u64) -> Result<Seq<(u32, int, u64)>, Error> {
    walk(d, p, p - 8 + size, size, "trak box contains a box with a larger size than it", trak_check(d))
}

/// Each field read from the last child of its name, or none where there is
/// no such child.
pub open spec fn trak_fields(d: Seq<u8>, kids: Seq<(u32, int, u64)>, tkhd: Option<Tkhd>, edts: Option<Edts>, meta: Option<Meta>, mdia: Option<Mdia>) -> bool {
    &&& match last_named(kids, TKHD) {
        None => tkhd is None,
        Some((q, s)) => tkhd matches Some(x) && tkhd_rel(d, q, s, x),
    }
    &&& match last_named(kids, EDTS) {
        None => edts is None,
        Some((q, s)) => edts matches Some(x) && edts_rel(d, q, s, x),
    }
    &&& match last_named(kids, META) {
        None => meta is None,
        Some((q, s)) => meta matches Some(x) && meta_rel(d, q, s, x),
    }
    &&& match last_named(kids, MDIA) {
        None => mdia is None,
        Some((q, s)) => mdia matches Some(x) && mdia_rel(d, q, s, x),
    }
}

pub open spec fn trak_res(d: Seq<u8>, p: int, size: u64) -> Result<(), Error> {
    if p - 8 + size > u64::MAX {
        Err(spec_overflow())
    } else {
        match trak_kids(d, p, size) {
            Err(e) => Err(e),
            Ok(kids) => if last_named(kids, TKHD) is None {
                Err(Error::AtomNotFound(spec_from_u32(TKHD)))
            } else if last_named(kids, MDIA) is None {
                Err(Error::AtomNotFound(spec_from_u32(MDIA)))
            } else {
                Ok(())
            },
        }
    }
}

pub open spec fn trak_rel(d: Seq<u8>, p: int, size: u64, x: Trak) -> bool {
    trak_fields(d, trak_kids(d, p, size)->Ok_0, Some(x.tkhd), x.edts, x.meta, Some(x.mdia))
}

impl Trak {
    /// Reads the box whose data starts at the position, and moves to its end.
    #[verifier::rlimit(30)]
    pub fn read(data: &[u8], pos: &mut u64, size: u64) -> (r: Result<Self, Error>)
        requires
            *old(pos) >= 8,
        ensures
            outcome(r, trak_res(data@, *old(pos) as int, size), |x: Trak| trak_rel(data@, *old(pos) as int, size, x)),
            r is Ok ==> *final(pos) == *old(pos) - 8 + size,
            *old(pos) - 8 + size > u64::MAX ==> *final(pos) == *old(pos),
            r is Err && *old(pos) - 8 + size <= u64::MAX && trak_kids(data@, *old(pos) as int, size) is Ok
                ==> *final(pos) == walk_end(data@, *old(pos) as int, *old(pos) - 8 + size, size, "trak box contains a box with a larger size than it", trak_check(data@)),
    {
        let p0 = *pos;
        let end = box_end(p0, size)?;
        let mut tkhd: Option<Tkhd> = None;
        let mut edts: Option<Edts> = None;
        let mut meta: Option<Meta> = None;
        let mut mdia: Option<Mdia> = None;
        let ghost d = data@;
        let ghost mut kids: Seq<(u32, int, u64)> = Seq::empty();
        proof {
            lemma_prepend_start(trak_kids(d, p0 as int, size));
        }
        while *pos < end
            invariant
                d == data@,
                p0 == *old(pos),
                end == p0 - 8 + size,
                *pos >= 8,
                trak_kids(d, p0 as int, size) == prepend(kids, walk(d, *pos as int, end as int, size, "trak box contains a box with a larger size than it", trak_check(d))),
                walk_end(d, p0 as int, end as int, size, "trak box contains a box with a larger size than it", trak_check(d)) == walk_end(d, *pos as int, end as int, size, "trak box contains a box with a larger size than it", trak_check(d)),
                trak_fields(d, kids, tkhd, edts, meta, mdia),
            decreases dist(*pos as int, end as int),
        {
            let current = *pos;
            let header = read_child(data, pos, size, "trak box contains a box with a larger size than it")?;
            let q = *pos;
            let name = header.name.value();
            if name == TKHD {
                tkhd = Some(Tkhd::read(data, pos, header.size)?);
            } else if name == EDTS {
                edts = Some(Edts::read(data, pos, header.size)?);
            } else if name == META {
                meta = Some(Meta::read(data, pos, header.size)?);
                if *pos <= current {
                    return Err(Error::InvalidData("box does not reach past its own header"));
                }
            } else if name == MDIA {
                mdia = Some(Mdia::read(data, pos, header.size)?);
            } else {
                skip_child(pos, header.size);
            }
            if *pos <= current {
                return Err(Error::InvalidData("box does not reach past its own header"));
            }
            proof {
                let c = (name, q as int, header.size);
                lemma_prepend_step(kids, c, walk(d, *pos as int, end as int, size, "trak box contains a box with a larger size than it", trak_check(d)));
                lemma_last_named_push(kids, c, TKHD);
                lemma_last_named_push(kids, c, EDTS);
                lemma_last_named_push(kids, c, META);
                lemma_last_named_push(kids, c, MDIA);
                kids = kids.push(c);
            }
        }
        proof {
            lemma_prepend_done(kids);
        }
        let tkhd = match tkhd {
            None => {
                return Err(Error::AtomNotFound(FourCC::from_u32(TKHD)));
            },
            Some(x) => x,
        };
        let mdia = match mdia {
            None => {
                return Err(Error::AtomNotFound(FourCC::from_u32(MDIA)));
            },
            Some(x) => x,
        };
        *pos = end;
        Ok(Trak { tkhd, edts, meta, mdia })
    }
}

} // verus!
