//! `mvex`: the movie extends box of a fragmented file, with the defaults
//! its track fragments use.
use vstd::prelude::*;
use crate::fourcc::{FourCC, spec_from_u32};
use crate::mp4::error::Error;
use crate::mp4::atom::{box_end, spec_overflow, outcome, dist};
use crate::mp4::atom::constant_name::{MEHD, TREX};
use crate::mp4::atom::mehd::{Mehd, mehd_res, mehd_rel};
use crate::mp4::atom::trex::{Trex, trex_res, trex_rel};
use crate::mp4::atom::walk::{walk, walk_end, read_child, skip_child, prepend, ends, last_named, lemma_prepend_step, lemma_prepend_start, lemma_prepend_done, lemma_last_named_push};

verus! {

/// The movie extends box. The `trex` child is needed.
#[derive(Debug, Clone)]
pub struct Mvex {
    pub mehd: Option<Mehd>,
    pub trex: Trex,
}

/// What reading a child of `mvex` gives, and where it leaves the stream.
pub open spec fn mvex_check(d: Seq<u8>) -> spec_fn(u32, int, u64) -> Result<int, Error> {
    |n: u32, q: int, s: u64|
        ends(
            if n == MEHD {
                mehd_res(d, q, s)
            } else if n == TREX {
                trex_res(d, q, s)
            } else {
                Ok(())
            },
            q,
            s,
        )
}

/// The children of the `mvex` box whose data starts at `p`.
pub open spec fn mvex_kids(d: Seq<u8>, p: int, size: u64) -> Result<Seq<(u32, int, u64)>, Error> {
    walk(d, p, p - 8 + size, size, "mvex box contains a box with a larger size than it", mvex_check(d))
}

/// Each field read from the last child of its name, or none where there is
/// no such child.
pub open spec fn mvex_fields(d: Seq<u8>, kids: Seq<(u32, int, u64)>, mehd: Option<Mehd>, trex: Option<Trex>) -> bool {
    &&& match last_named(kids, MEHD) {
        None => mehd is None,
        Some((q, s)) => mehd matches Some(x) && mehd_rel(d, q, s, x),
    }
    &&& match last_named(kids, TREX) {
        None => trex is None,
        Some((q, s)) => trex matches Some(x) && trex_rel(d, q, s, x),
    }
}

pub open spec fn mvex_res(d: Seq<u8>, p: int, size: u64) -> Result<(), Error> {
    if p - 8 + size > u64::MAX {
        Err(spec_overflow())
    } else {
        match mvex_kids(d, p, size) {
            Err(e) => Err(e),
            Ok(kids) => if last_named(kids, TREX) is None {
                Err(Error::AtomNotFound(spec_from_u32(TREX)))
            } else {
                Ok(())
            },
        }
    }
}

pub open spec fn mvex_rel(d: Seq<u8>, p: int, size: u64, x: Mvex) -> bool {
    mvex_fields(d, mvex_kids(d, p, size)->Ok_0, x.mehd, Some(x.trex))
}

impl Mvex {
    /// Reads the box whose data starts at the position, and moves to its end.
    #[verifier::rlimit(30)]
    pub fn read(data: &[u8], pos: &mut u64, size: u64) -> (r: Result<Self, Error>)
        requires
            *old(pos) >= 8,
        ensures
            outcome(r, mvex_res(data@, *old(pos) as int, size), |x: Mvex| mvex_rel(data@, *old(pos) as int, size, x)),
            r is Ok ==> *final(pos) == *old(pos) - 8 + size,
            *old(pos) - 8 + size > u64::MAX ==> *final(pos) == *old(pos),
            r is Err && *old(pos) - 8 + size <= u64::MAX && mvex_kids(data@, *old(pos) as int, size) is Ok
                ==> *final(pos) == walk_end(data@, *old(pos) as int, *old(pos) - 8 + size, size, "mvex box contains a box with a larger size than it", mvex_check(data@)),
    {
        let p0 = *pos;
        let end = box_end(p0, size)?;
        let mut mehd: Option<Mehd> = None;
        let mut trex: Option<Trex> = None;
        let ghost d = data@;
        let ghost mut kids: Seq<(u32, int, u64)> = Seq::empty();
        proof {
            lemma_prepend_start(mvex_kids(d, p0 as int, size));
        }
        while *pos < end
            invariant
                d == data@,
                p0 == *old(pos),
                end == p0 - 8 + size,
                *pos >= 8,
                mvex_kids(d, p0 as int, size) == prepend(kids, walk(d, *pos as int, end as int, size, "mvex box contains a box with a larger size than it", mvex_check(d))),
                walk_end(d, p0 as int, end as int, size, "mvex box contains a box with a larger size than it", mvex_check(d)) == walk_end(d, *pos as int, end as int, size, "mvex box contains a box with a larger size than it", mvex_check(d)),
                mvex_fields(d, kids, mehd, trex),
            decreases dist(*pos as int, end as int),
        {
            let current = *pos;
            let header = read_child(data, pos, size, "mvex box contains a box with a larger size than it")?;
            let q = *pos;
            let name = header.name.value();
            if name == MEHD {
                mehd = Some(Mehd::read(data, pos, header.size)?);
            } else if name == TREX {
                trex = Some(Trex::read(data, pos, header.size)?);
            } else {
                skip_child(pos, header.size);
            }
            if *pos <= current {
                return Err(Error::InvalidData("box does not reach past its own header"));
            }
            proof {
                let c = (name, q as int, header.size);
                lemma_prepend_step(kids, c, walk(d, *pos as int, end as int, size, "mvex box contains a box with a larger size than it", mvex_check(d)));
                lemma_last_named_push(kids, c, MEHD);
                lemma_last_named_push(kids, c, TREX);
                kids = kids.push(c);
            }
        }
        proof {
            lemma_prepend_done(kids);
        }
        let trex = match trex {
            None => {
                return Err(Error::AtomNotFound(FourCC::from_u32(TREX)));
            },
            Some(x) => x,
        };
        *pos = end;
        Ok(Mvex { mehd, trex })
    }
}

} // verus!
