//! `dinf` and `dref`: where a track's media data is, as a list of data
//! references.
use vstd::prelude::*;
use crate::fourcc::{FourCC, spec_from_u32};
use crate::mp4::error::Error;
use crate::mp4::stream::{fits, be32, read_u32};
use crate::mp4::atom::{read_full_header, spec_full_header, read_header, spec_header, box_end, spec_overflow, outcome, dist};
use crate::mp4::atom::constant_name::{DREF, URL_};
use crate::mp4::atom::url::{Url, url_res, url_rel};
use crate::mp4::atom::walk::{walk, walk_end, spec_child, read_child, skip_child, prepend, last_named, lemma_prepend_step, ends, lemma_prepend_start, lemma_prepend_done, lemma_last_named_push};

verus! {

#[derive(Debug, Clone)]
pub struct Dref {
    pub version: u8,
    pub flags: u32,
    pub url: Option<Url>,
}

/// The last `url ` entry among the `n` entries still to read, or none. The
/// walk stops early once `chk`, where the last entry ended, reaches `end`;
/// the next entry's header is at `at`. An entry is refused with the message
/// of the `dinf` box when larger than the `dref` box.
pub open spec fn dref_walk(d: Seq<u8>, chk: int, at: int, end: int, size: u64, n: nat) -> Result<Option<(int, u64)>, Error>
    decreases n,
{
    if n == 0 || chk >= end {
        Ok(None)
    } else {
        match spec_header(d, at) {
            Err(e) => Err(e),
            Ok((h, q)) => if h.size > size {
                Err(Error::InvalidData("dinf box contains a box with a larger size than it"))
            } else if q - 8 + h.size > u64::MAX {
                Err(spec_overflow())
            } else if h.name.spec_value() == URL_ && url_res(d, q, h.size) is Err {
                Err(url_res(d, q, h.size)->Err_0)
            } else {
                let next = q - 8 + h.size;
                match dref_walk(d, next, next, end, size, (n - 1) as nat) {
                    Err(e) => Err(e),
                    Ok(later) => Ok(if later is Some || h.name.spec_value() != URL_ { later } else { Some((q, h.size)) }),
                }
            },
        }
    }
}

pub open spec fn dref_res(d: Seq<u8>, p: int, size: u64) -> Result<(), Error> {
    match spec_full_header(d, p) {
        Err(e) => Err(e),
        Ok(_) => if p - 8 + size > u64::MAX {
            Err(spec_overflow())
        } else if !fits(d, p + 4, 4) {
            Err(Error::Io)
        } else {
            match dref_walk(d, p, p + 8, p - 8 + size, size, be32(d, p + 4) as nat) {
                Err(e) => Err(e),
                Ok(_) => Ok(()),
            }
        },
    }
}

pub open spec fn dref_rel(d: Seq<u8>, p: int, size: u64, x: Dref) -> bool {
    &&& x.version == d[p]
    &&& x.flags == spec_full_header(d, p)->Ok_0.flags
    &&& match dref_walk(d, p, p + 8, p - 8 + size, size, be32(d, p + 4) as nat)->Ok_0 {
        None => x.url is None,
        Some((q, s)) => x.url matches Some(u) && url_rel(d, q, s, u),
    }
}

impl Dref {
    /// Reads the box whose data starts at the position, and moves to its end.
    pub fn read(data: &[u8], pos: &mut u64, size: u64) -> (r: Result<Self, Error>)
        requires
            *old(pos) >= 8,
        ensures
            outcome(r, dref_res(data@, *old(pos) as int, size), |x: Dref| dref_rel(data@, *old(pos) as int, size, x)),
            r is Ok ==> *final(pos) == *old(pos) - 8 + size,
            spec_full_header(data@, *old(pos) as int) is Ok && *old(pos) - 8 + size > u64::MAX ==> *final(pos)
                == *old(pos) + 4,
    {
        let p0 = *pos;
        let full_header = read_full_header(data, pos)?;
        let end = box_end(p0, size)?;
        let entry_count = read_u32(data, pos)?;
        let ghost total = entry_count as nat;
        let mut url: Option<Url> = None;
        let ghost mut found: Option<(int, u64)> = None;
        let mut current = p0;
        let mut i: u32 = 0;
        while i < entry_count && current < end
            invariant
                p0 == *old(pos),
                p0 >= 8,
                end == p0 - 8 + size,
                i <= entry_count,
                total == entry_count,
                *pos >= 8,
                entry_count == be32(data@, p0 + 4),
                dref_walk(data@, p0 as int, p0 + 8, end as int, size, total) == match dref_walk(
                    data@, current as int, *pos as int, end as int, size, (total - i) as nat,
                ) {
                    Err(e) => Err(e),
                    Ok(later) => Ok(if later is Some { later } else { found }),
                },
                match found {
                    None => url is None,
                    Some((q, s)) => url matches Some(u) && url_rel(data@, q, s, u),
                },
            decreases entry_count - i,
        {
            let at = *pos;
            let header = read_header(data, pos)?;
            let s = header.size;
            if s > size {
                return Err(Error::InvalidData("dinf box contains a box with a larger size than it"));
            }
            let q = *pos;
            if q - 8 > u64::MAX - s {
                return Err(Error::InvalidData("box extends past the largest stream position"));
            }
            if header.name.value() == URL_ {
                url = Some(Url::read(data, pos, s)?);
                proof {
                    found = Some((q as int, s));
                }
            } else {
                skip_child(pos, s);
            }
            current = *pos;
            i = i + 1;
        }
        *pos = end;
        Ok(Dref { version: full_header.version, flags: full_header.flags, url })
    }
}

/// The data information box: its data references.
#[derive(Debug, Clone)]
pub struct Dinf {
    dref: Dref,
}

/// What reading a child of `dinf` gives.
pub open spec fn dinf_check(d: Seq<u8>) -> spec_fn(u32, int, u64) -> Result<int, Error> {
    |n: u32, q: int, s: u64| ends(if n == DREF { dref_res(d, q, s) } else { Ok(()) }, q, s)
}

/// The children of the `dinf` box whose data starts at `p`.
pub open spec fn dinf_kids(d: Seq<u8>, p: int, size: u64) -> Result<Seq<(u32, int, u64)>, Error> {
    walk(d, p, p - 8 + size, size, "dinf box contains a box with a larger size than it", dinf_check(d))
}

pub open spec fn dinf_res(d: Seq<u8>, p: int, size: u64) -> Result<(), Error> {
    if p - 8 + size > u64::MAX {
        Err(spec_overflow())
    } else {
        match dinf_kids(d, p, size) {
            Err(e) => Err(e),
            Ok(kids) => if last_named(kids, DREF) is None {
                Err(Error::AtomNotFound(spec_from_u32(DREF)))
            } else {
                Ok(())
            },
        }
    }
}

pub closed spec fn dinf_rel(d: Seq<u8>, p: int, size: u64, x: Dinf) -> bool {
    let (q, s) = last_named(dinf_kids(d, p, size)->Ok_0, DREF)->Some_0;
    dref_rel(d, q, s, x.dref)
}

impl Dinf {
    /// Reads the box whose data starts at the position, and moves to its end.
    /// The last `dref` child is kept; one is needed.
    pub fn read(data: &[u8], pos: &mut u64, size: u64) -> (r: Result<Self, Error>)
        requires
            *old(pos) >= 8,
        ensures
            outcome(r, dinf_res(data@, *old(pos) as int, size), |x: Dinf| dinf_rel(data@, *old(pos) as int, size, x)),
            r is Ok ==> *final(pos) == *old(pos) - 8 + size,
            *old(pos) - 8 + size > u64::MAX ==> *final(pos) == *old(pos),
            r is Err && *old(pos) - 8 + size <= u64::MAX && dinf_kids(data@, *old(pos) as int, size) is Ok
                ==> *final(pos) == walk_end(data@, *old(pos) as int, *old(pos) - 8 + size, size, "dinf box contains a box with a larger size than it", dinf_check(data@)),
    {
        let p0 = *pos;
        let end = box_end(p0, size)?;
        let mut dref: Option<Dref> = None;
        let ghost d = data@;
        let ghost mut kids: Seq<(u32, int, u64)> = Seq::empty();
        proof {
            lemma_prepend_start(dinf_kids(d, p0 as int, size));
        }
        while *pos < end
            invariant
                d == data@,
                p0 == *old(pos),
                end == p0 - 8 + size,
                *pos >= 8,
                dinf_kids(d, p0 as int, size) == prepend(kids, walk(d, *pos as int, end as int, size, "dinf box contains a box with a larger size than it", dinf_check(d))),
                walk_end(d, p0 as int, end as int, size, "dinf box contains a box with a larger size than it", dinf_check(d)) == walk_end(d, *pos as int, end as int, size, "dinf box contains a box with a larger size than it", dinf_check(d)),
                match last_named(kids, DREF) {
                    None => dref is None,
                    Some((q, s)) => dref matches Some(x) && dref_rel(d, q, s, x),
                },
            decreases dist(*pos as int, end as int),
        {
            let current = *pos;
            let header = read_child(data, pos, size, "dinf box contains a box with a larger size than it")?;
            let q = *pos;
            let name = header.name.value();
            if name == DREF {
                dref = Some(Dref::read(data, pos, header.size)?);
            } else {
                skip_child(pos, header.size);
            }
            if *pos <= current {
                return Err(Error::InvalidData("box does not reach past its own header"));
            }
            proof {
                let c = (name, q as int, header.size);
                lemma_prepend_step(kids, c, walk(d, *pos as int, end as int, size, "dinf box contains a box with a larger size than it", dinf_check(d)));
                lemma_last_named_push(kids, c, DREF);
                kids = kids.push(c);
            }
        }
        proof {
            lemma_prepend_done(kids);
        }
        match dref {
            None => Err(Error::AtomNotFound(FourCC::from_u32(DREF))),
            Some(dref) => {
                *pos = end;
                Ok(Dinf { dref })
            },
        }
    }
}

} // verus!
