//! `udta`: the user data box, which may hold metadata.
use vstd::prelude::*;
use crate::mp4::error::Error;
use crate::mp4::atom::{box_end, spec_overflow, outcome, dist};
use crate::mp4::atom::constant_name::{META};
use crate::mp4::atom::meta::{Meta, meta_res, meta_rel, meta_end};
use crate::mp4::atom::walk::{walk, walk_end, read_child, skip_child, prepend, last_named, lemma_prepend_step, lemma_prepend_start, lemma_prepend_done, lemma_last_named_push};

verus! {

/// The user data box.
#[derive(Debug, Clone)]
pub struct Udta {
    pub meta: Option<Meta>,
}

/// What reading a child of `udta` gives, and where it leaves the stream.
pub open spec fn udta_check(d: Seq<u8>) -> spec_fn(u32, int, u64) -> Result<int, Error> {
    |n: u32, q: int, s: u64|
        if n == META {
            match meta_res(d, q, s) {
                Ok(_) => Ok(meta_end(d, q, s)),
                Err(e) => Err(e),
            }
        } else {
            Ok(q - 8 + s)
        }
}

/// The children of the `udta` box whose data starts at `p`.
pub open spec fn udta_kids(d: Seq<u8>, p: int, size: u64) -> Result<Seq<(u32, int, u64)>, Error> {
    walk(d, p, p - 8 + size, size, "udta box contains a box with a larger size than it", udta_check(d))
}

/// Each field read from the last child of its name, or none where there is
/// no such child.
pub open spec fn udta_fields(d: Seq<u8>, kids: Seq<(u32, int, u64)>, meta: Option<Meta>) -> bool {
    &&& match last_named(kids, META) {
        None => meta is None,
        Some((q, s)) => meta matches Some(x) && meta_rel(d, q, s, x),
    }
}

pub open spec fn udta_res(d: Seq<u8>, p: int, size: u64) -> Result<(), Error> {
    if p - 8 + size > u64::MAX {
        Err(spec_overflow())
    } else {
        match udta_kids(d, p, size) {
            Err(e) => Err(e),
            Ok(kids) => {
                Ok(())
            },
        }
    }
}

pub open spec fn udta_rel(d: Seq<u8>, p: int, size: u64, x: Udta) -> bool {
    udta_fields(d, udta_kids(d, p, size)->Ok_0, x.meta)
}

impl Udta {
    /// Reads the box whose data starts at the position, and moves to its end.
    #[verifier::rlimit(30)]
    pub fn read(data: &[u8], pos: &mut u64, size: u64) -> (r: Result<Self, Error>)
        requires
            *old(pos) >= 8,
        ensures
            outcome(r, udta_res(data@, *old(pos) as int, size), |x: Udta| udta_rel(data@, *old(pos) as int, size, x)),
            r is Ok ==> *final(pos) == *old(pos) - 8 + size,
            *old(pos) - 8 + size > u64::MAX ==> *final(pos) == *old(pos),
            r is Err && *old(pos) - 8 + size <= u64::MAX && udta_kids(data@, *old(pos) as int, size) is Ok
                ==> *final(pos) == walk_end(data@, *old(pos) as int, *old(pos) - 8 + size, size, "udta box contains a box with a larger size than it", udta_check(data@)),
    {
        let p0 = *pos;
        let end = box_end(p0, size)?;
        let mut meta: Option<Meta> = None;
        let ghost d = data@;
        let ghost mut kids: Seq<(u32, int, u64)> = Seq::empty();
        proof {
            lemma_prepend_start(udta_kids(d, p0 as int, size));
        }
        while *pos < end
            invariant
                d == data@,
                p0 == *old(pos),
                end == p0 - 8 + size,
                *pos >= 8,
                udta_kids(d, p0 as int, size) == prepend(kids, walk(d, *pos as int, end as int, size, "udta box contains a box with a larger size than it", udta_check(d))),
                walk_end(d, p0 as int, end as int, size, "udta box contains a box with a larger size than it", udta_check(d)) == walk_end(d, *pos as int, end as int, size, "udta box contains a box with a larger size than it", udta_check(d)),
                udta_fields(d, kids, meta),
            decreases dist(*pos as int, end as int),
        {
            let current = *pos;
            let header = read_child(data, pos, size, "udta box contains a box with a larger size than it")?;
            let q = *pos;
            let name = header.name.value();
            if name == META {
                meta = Some(Meta::read(data, pos, header.size)?);
                if *pos <= current {
                    return Err(Error::InvalidData("box does not reach past its own header"));
                }
            } else {
                skip_child(pos, header.size);
            }
            if *pos <= current {
                return Err(Error::InvalidData("box does not reach past its own header"));
            }
            proof {
                let c = (name, q as int, header.size);
                lemma_prepend_step(kids, c, walk(d, *pos as int, end as int, size, "udta box contains a box with a larger size than it", udta_check(d)));
                lemma_last_named_push(kids, c, META);
                kids = kids.push(c);
            }
        }
        proof {
            lemma_prepend_done(kids);
        }
        *pos = end;
        Ok(Udta { meta })
    }
}

} // verus!
