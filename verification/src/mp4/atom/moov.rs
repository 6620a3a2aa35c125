//! `moov`: the movie box: the movie header, the tracks and the metadata.
use vstd::prelude::*;
use crate::fourcc::{FourCC, spec_from_u32};
use crate::mp4::error::Error;
use crate::mp4::atom::{box_end, spec_overflow, outcome, dist};
use crate::mp4::atom::constant_name::{MVHD, META, MVEX, TRAK, UDTA};
use crate::mp4::atom::mvhd::{Mvhd, mvhd_res, mvhd_rel};
use crate::mp4::atom::meta::{Meta, meta_res, meta_rel, meta_end};
use crate::mp4::atom::mvex::{Mvex, mvex_res, mvex_rel};
use crate::mp4::atom::trak::{Trak, trak_res, trak_rel};
use crate::mp4::atom::udta::{Udta, udta_res, udta_rel};
use crate::mp4::atom::walk::{walk, walk_end, read_child, skip_child, prepend, ends, last_named, lemma_prepend_step, lemma_prepend_start, lemma_prepend_done, lemma_last_named_push, all_named, lemma_all_named_push};

verus! {

/// The movie. The `mvhd` child is needed; every `trak` child is a track, in order.
#[derive(Debug, Clone)]
pub struct Moov {
    pub mvhd: Mvhd,
    pub meta: Option<Meta>,
    pub mvex: Option<Mvex>,
    pub traks: Vec<Trak>,
    pub udta: Option<Udta>,
}

/// What reading a child of `moov` gives, and where it leaves the stream.
pub open spec fn moov_check(d: Seq<u8>) -> spec_fn(u32, int, u64) -> Result<int, Error> {
    |n: u32, q: int, s: u64|
        if n == META {
            match meta_res(d, q, s) {
                Ok(_) => Ok(meta_end(d, q, s)),
                Err(e) => Err(e),
            }
        } else {
            ends(
                if n == MVHD {
                    mvhd_res(d, q, s)
                } else if n == MVEX {
                    mvex_res(d, q, s)
                } else if n == TRAK {
                    trak_res(d, q, s)
                } else if n == UDTA {
                    udta_res(d, q, s)
                } else {
                    Ok(())
                },
                q,
                s,
            )
        }
}

/// The children of the `moov` box whose data starts at `p`.
pub open spec fn moov_kids(d: Seq<u8>, p: int, size: u64) -> Result<Seq<(u32, int, u64)>, Error> {
    walk(d, p, p - 8 + size, size, "moov box contains a box with a larger size than it", moov_check(d))
}

/// Each field read from the last child of its name, or none where there is
/// no such child; a list from every child of its name, in order.
pub open spec fn moov_fields(d: Seq<u8>, kids: Seq<(u32, int, u64)>, mvhd: Option<Mvhd>, meta: Option<Meta>, mvex: Option<Mvex>, traks: Seq<Trak>, udta: Option<Udta>) -> bool {
    &&& match last_named(kids, MVHD) {
        None => mvhd is None,
        Some((q, s)) => mvhd matches Some(x) && mvhd_rel(d, q, s, x),
    }
    &&& match last_named(kids, META) {
        None => meta is None,
        Some((q, s)) => meta matches Some(x) && meta_rel(d, q, s, x),
    }
    &&& match last_named(kids, MVEX) {
        None => mvex is None,
        Some((q, s)) => mvex matches Some(x) && mvex_rel(d, q, s, x),
    }
    &&& traks.len() == all_named(kids, TRAK).len()
    &&& forall|i: int| 0 <= i < traks.len() ==> trak_rel(d, all_named(kids, TRAK)[i].0, all_named(kids, TRAK)[i].1, #[trigger] traks[i])
    &&& match last_named(kids, UDTA) {
        None => udta is None,
        Some((q, s)) => udta matches Some(x) && udta_rel(d, q, s, x),
    }
}

pub open spec fn moov_res(d: Seq<u8>, p: int, size: u64) -> Result<(), Error> {
    if p - 8 + size > u64::MAX {
        Err(spec_overflow())
    } else {
        match moov_kids(d, p, size) {
            Err(e) => Err(e),
            Ok(kids) => if last_named(kids, MVHD) is None {
                Err(Error::AtomNotFound(spec_from_u32(MVHD)))
            } else {
                Ok(())
            },
        }
    }
}

pub open spec fn moov_rel(d: Seq<u8>, p: int, size: u64, x: Moov) -> bool {
    moov_fields(d, moov_kids(d, p, size)->Ok_0, Some(x.mvhd), x.meta, x.mvex, x.traks@, x.udta)
}

impl Moov {
    /// Reads the box whose data starts at the position, and moves to its end.
    #[verifier::rlimit(30)]
    pub fn read(data: &[u8], pos: &mut u64, size: u64) -> (r: Result<Self, Error>)
        requires
            *old(pos) >= 8,
        ensures
            outcome(r, moov_res(data@, *old(pos) as int, size), |x: Moov| moov_rel(data@, *old(pos) as int, size, x)),
            r is Ok ==> *final(pos) == *old(pos) - 8 + size,
            *old(pos) - 8 + size > u64::MAX ==> *final(pos) == *old(pos),
            r is Err && *old(pos) - 8 + size <= u64::MAX && moov_kids(data@, *old(pos) as int, size) is Ok
                ==> *final(pos) == walk_end(data@, *old(pos) as int, *old(pos) - 8 + size, size, "moov box contains a box with a larger size than it", moov_check(data@)),
    {
        let p0 = *pos;
        let end = box_end(p0, size)?;
        let mut mvhd: Option<Mvhd> = None;
        let mut meta: Option<Meta> = None;
        let mut mvex: Option<Mvex> = None;
        let mut traks: Vec<Trak> = Vec::new();
        let mut udta: Option<Udta> = None;
        let ghost d = data@;
        let ghost mut kids: Seq<(u32, int, u64)> = Seq::empty();
        proof {
            lemma_prepend_start(moov_kids(d, p0 as int, size));
        }
        while *pos < end
            invariant
                d == data@,
                p0 == *old(pos),
                end == p0 - 8 + size,
                *pos >= 8,
                moov_kids(d, p0 as int, size) == prepend(kids, walk(d, *pos as int, end as int, size, "moov box contains a box with a larger size than it", moov_check(d))),
                walk_end(d, p0 as int, end as int, size, "moov box contains a box with a larger size than it", moov_check(d)) == walk_end(d, *pos as int, end as int, size, "moov box contains a box with a larger size than it", moov_check(d)),
                moov_fields(d, kids, mvhd, meta, mvex, traks@, udta),
            decreases dist(*pos as int, end as int),
        {
            let current = *pos;
            let header = read_child(data, pos, size, "moov box contains a box with a larger size than it")?;
            let q = *pos;
            let name = header.name.value();
            if name == MVHD {
                mvhd = Some(Mvhd::read(data, pos, header.size)?);
            } else if name == META {
                meta = Some(Meta::read(data, pos, header.size)?);
            } else if name == MVEX {
                mvex = Some(Mvex::read(data, pos, header.size)?);
            } else if name == TRAK {
                let x = Trak::read(data, pos, header.size)?;
                traks.push(x);
            } else if name == UDTA {
                udta = Some(Udta::read(data, pos, header.size)?);
            } else {
                skip_child(pos, header.size);
            }
            if *pos <= current {
                return Err(Error::InvalidData("box does not reach past its own header"));
            }
            proof {
                let c = (name, q as int, header.size);
                lemma_prepend_step(kids, c, walk(d, *pos as int, end as int, size, "moov box contains a box with a larger size than it", moov_check(d)));
                lemma_last_named_push(kids, c, MVHD);
                lemma_last_named_push(kids, c, META);
                lemma_last_named_push(kids, c, MVEX);
                lemma_all_named_push(kids, c, TRAK);
                lemma_last_named_push(kids, c, UDTA);
                kids = kids.push(c);
            }
        }
        proof {
            lemma_prepend_done(kids);
        }
        let mvhd = match mvhd {
            None => {
                return Err(Error::AtomNotFound(FourCC::from_u32(MVHD)));
            },
            Some(x) => x,
        };
        *pos = end;
        Ok(Moov { mvhd, meta, mvex, traks, udta })
    }
}

} // verus!
