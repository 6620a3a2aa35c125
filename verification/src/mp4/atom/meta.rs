//! `meta`: a metadata box. Its `hdlr` child says how the rest is laid out;
//! the `mdir` layout holds an item list, any other is kept as raw boxes.
use vstd::prelude::*;
use crate::fourcc::{FourCC, spec_from_u32, spec_fourcc_at};
use crate::mp4::error::Error;
use crate::mp4::stream::{fits, be32, read_u32, read_bytes};
use crate::mp4::atom::{box_end, spec_overflow, outcome, dist};
use crate::mp4::atom::constant_name::{META, HDLR, MDIR, ILST};
use crate::mp4::atom::hdlr::{Hdlr, hdlr_res, hdlr_rel};
use crate::mp4::atom::ilst::{Ilst, ilst_res, ilst_rel};
use crate::mp4::atom::walk::{walk, walk_end, read_child, skip_child, prepend, ends, last_named, lemma_prepend_step, lemma_prepend_start, lemma_prepend_done, lemma_last_named_push};

verus! {

#[derive(Debug, Clone)]
pub enum Meta {
    Mdir { ilst: Option<Ilst> },
    Unknown { hdlr: Hdlr, data: Vec<(FourCC, Vec<u8>)> },
}

/// Where the children of the `meta` box whose data starts at `p` start:
/// after its version and flags, which must be 0, or, where the box leaves
/// them out and starts straight with its `hdlr` child, at `p` itself.
pub open spec fn meta_content(d: Seq<u8>, p: int) -> Result<int, Error> {
    if !fits(d, p, 4) {
        Err(Error::Io)
    } else if be32(d, p) == 0 {
        Ok(p + 4)
    } else if !fits(d, p + 4, 4) {
        Err(Error::Io)
    } else if be32(d, p + 4) == HDLR {
        Ok(p)
    } else {
        Err(Error::UnsupportedAtomVersion(spec_from_u32(META), (be32(d, p) >> 24u32) as u8))
    }
}

/// Reading a child of `meta` in the search for its `hdlr`.
pub open spec fn hdlr_check(d: Seq<u8>) -> spec_fn(u32, int, u64) -> Result<int, Error> {
    |n: u32, q: int, s: u64| ends(if n == HDLR { hdlr_res(d, q, s) } else { Ok(()) }, q, s)
}

/// Reading a child of an `mdir` `meta` box.
pub open spec fn mdir_check(d: Seq<u8>) -> spec_fn(u32, int, u64) -> Result<int, Error> {
    |n: u32, q: int, s: u64| ends(if n == ILST { ilst_res(d, q, s) } else { Ok(()) }, q, s)
}

/// Reading a child of a `meta` box of another layout: all but the `hdlr`
/// are copied out whole.
pub open spec fn raw_check(d: Seq<u8>) -> spec_fn(u32, int, u64) -> Result<int, Error> {
    |n: u32, q: int, s: u64|
        if n == HDLR {
            Ok(q - 8 + s)
        } else if s < 8 {
            Err(Error::InvalidData("box smaller than its header"))
        } else if !fits(d, q, s - 8) {
            Err(Error::Io)
        } else {
            Ok(q - 8 + s)
        }
}

/// The walks over the children of `meta` make no size check of their own.
pub open spec fn meta_walk(d: Seq<u8>, c: int, end: int, check: spec_fn(u32, int, u64) -> Result<int, Error>) -> Result<Seq<(u32, int, u64)>, Error> {
    walk(d, c, end, u64::MAX, "meta box contains a box with a larger size than it", check)
}

/// Where the `hdlr` child of the `meta` box whose data starts at `p` is.
pub open spec fn meta_hdlr(d: Seq<u8>, p: int, size: u64) -> (int, u64) {
    let c = meta_content(d, p)->Ok_0;
    last_named(meta_walk(d, c, p - 8 + size, hdlr_check(d))->Ok_0, HDLR)->Some_0
}

/// Whether the `meta` box whose data starts at `p` has the `mdir` layout.
pub open spec fn is_mdir(d: Seq<u8>, p: int, size: u64) -> bool {
    spec_fourcc_at(d, meta_hdlr(d, p, size).0 + 8).spec_value() == MDIR
}

/// How the children are read after the `hdlr`.
pub open spec fn layout_check(d: Seq<u8>, p: int, size: u64) -> spec_fn(u32, int, u64) -> Result<int, Error> {
    if is_mdir(d, p, size) {
        mdir_check(d)
    } else {
        raw_check(d)
    }
}

pub open spec fn meta_res(d: Seq<u8>, p: int, size: u64) -> Result<(), Error> {
    match meta_content(d, p) {
        Err(e) => Err(e),
        Ok(c) => if p - 8 + size > u64::MAX {
            Err(spec_overflow())
        } else {
            match meta_walk(d, c, p - 8 + size, hdlr_check(d)) {
                Err(e) => Err(e),
                Ok(kids) => if last_named(kids, HDLR) is None {
                    Err(Error::AtomNotFound(spec_from_u32(HDLR)))
                } else {
                    match meta_walk(d, c, p - 8 + size, layout_check(d, p, size)) {
                        Err(e) => Err(e),
                        Ok(_) => Ok(()),
                    }
                },
            }
        },
    }
}

/// Where reading the `meta` box whose data starts at `p` leaves the stream:
/// where its last child ends, not where the box itself does.
pub open spec fn meta_end(d: Seq<u8>, p: int, size: u64) -> int {
    let c = meta_content(d, p)->Ok_0;
    walk_end(d, c, p - 8 + size, u64::MAX, "meta box contains a box with a larger size than it", layout_check(d, p, size))
}

/// The name and contents of each child but the `hdlr`, in order.
pub open spec fn raw_items(d: Seq<u8>, kids: Seq<(u32, int, u64)>) -> Seq<(u32, Seq<u8>)>
    decreases kids.len(),
{
    if kids.len() == 0 {
        Seq::empty()
    } else if kids.last().0 == HDLR {
        raw_items(d, kids.drop_last())
    } else {
        raw_items(d, kids.drop_last()).push((kids.last().0, d.subrange(kids.last().1, kids.last().1 + kids.last().2 - 8)))
    }
}

pub open spec fn raw_rel(items: Seq<(FourCC, Vec<u8>)>, want: Seq<(u32, Seq<u8>)>) -> bool {
    &&& items.len() == want.len()
    &&& forall|i: int| 0 <= i < items.len() ==> #[trigger] items[i].0.spec_value() == want[i].0 && items[i].1@ == want[i].1
}

pub open spec fn meta_rel(d: Seq<u8>, p: int, size: u64, x: Meta) -> bool {
    let c = meta_content(d, p)->Ok_0;
    let kids = meta_walk(d, c, p - 8 + size, layout_check(d, p, size))->Ok_0;
    let (hq, hs) = meta_hdlr(d, p, size);
    if is_mdir(d, p, size) {
        x matches Meta::Mdir { ilst } && match last_named(kids, ILST) {
            None => ilst is None,
            Some((q, s)) => ilst matches Some(l) && ilst_rel(d, q, s, l),
        }
    } else {
        x matches Meta::Unknown { hdlr, data } && hdlr_rel(d, hq, hs, hdlr) && raw_rel(data@, raw_items(d, kids))
    }
}

/// The raw items after one more child.
proof fn lemma_raw_items_push(d: Seq<u8>, kids: Seq<(u32, int, u64)>, c: (u32, int, u64))
    ensures
        raw_items(d, kids.push(c)) == if c.0 == HDLR {
            raw_items(d, kids)
        } else {
            raw_items(d, kids).push((c.0, d.subrange(c.1, c.1 + c.2 - 8)))
        },
{
    assert(kids.push(c).drop_last() =~= kids);
}

/// Finds the `hdlr` child among those from the position to `end`.
fn find_hdlr(data: &[u8], pos: &mut u64, end: u64) -> (r: Result<Option<Hdlr>, Error>)
    requires
        *old(pos) >= 8,
    ensures
        match meta_walk(data@, *old(pos) as int, end as int, hdlr_check(data@)) {
            Err(e) => r == Err::<Option<Hdlr>, Error>(e),
            Ok(kids) => r matches Ok(h) && match last_named(kids, HDLR) {
                None => h is None,
                Some((q, s)) => h matches Some(x) && hdlr_rel(data@, q, s, x),
            },
        },
        r is Ok ==> *final(pos) == walk_end(data@, *old(pos) as int, end as int, u64::MAX, "meta box contains a box with a larger size than it", hdlr_check(data@)),
{
    let ghost d = data@;
    let ghost c0 = *pos as int;
    let mut hdlr: Option<Hdlr> = None;
    let ghost mut kids: Seq<(u32, int, u64)> = Seq::empty();
    proof {
        lemma_prepend_start(meta_walk(d, c0, end as int, hdlr_check(d)));
    }
    while *pos < end
        invariant
            d == data@,
            c0 == *old(pos),
            *pos >= 8,
            meta_walk(d, c0, end as int, hdlr_check(d)) == prepend(kids, meta_walk(d, *pos as int, end as int, hdlr_check(d))),
            walk_end(d, c0, end as int, u64::MAX, "meta box contains a box with a larger size than it", hdlr_check(d))
                == walk_end(d, *pos as int, end as int, u64::MAX, "meta box contains a box with a larger size than it", hdlr_check(d)),
            match last_named(kids, HDLR) {
                None => hdlr is None,
                Some((q, s)) => hdlr matches Some(x) && hdlr_rel(d, q, s, x),
            },
        decreases dist(*pos as int, end as int),
    {
        let current = *pos;
        let header = read_child(data, pos, u64::MAX, "meta box contains a box with a larger size than it")?;
        let q = *pos;
        let name = header.name.value();
        if name == HDLR {
            hdlr = Some(Hdlr::read(data, pos, header.size)?);
        } else {
            skip_child(pos, header.size);
        }
        if *pos <= current {
            return Err(Error::InvalidData("box does not reach past its own header"));
        }
        proof {
            let c = (name, q as int, header.size);
            lemma_prepend_step(kids, c, meta_walk(d, *pos as int, end as int, hdlr_check(d)));
            lemma_last_named_push(kids, c, HDLR);
            kids = kids.push(c);
        }
    }
    proof {
        lemma_prepend_done(kids);
    }
    Ok(hdlr)
}

/// Reads the children of an `mdir` box from the position to `end`.
fn read_mdir(data: &[u8], pos: &mut u64, end: u64) -> (r: Result<Option<Ilst>, Error>)
    requires
        *old(pos) >= 8,
    ensures
        match meta_walk(data@, *old(pos) as int, end as int, mdir_check(data@)) {
            Err(e) => r == Err::<Option<Ilst>, Error>(e),
            Ok(kids) => r matches Ok(l) && match last_named(kids, ILST) {
                None => l is None,
                Some((q, s)) => l matches Some(x) && ilst_rel(data@, q, s, x),
            },
        },
        r is Ok ==> *final(pos) == walk_end(data@, *old(pos) as int, end as int, u64::MAX, "meta box contains a box with a larger size than it", mdir_check(data@)),
{
    let ghost d = data@;
    let ghost c0 = *pos as int;
    let mut ilst: Option<Ilst> = None;
    let ghost mut kids: Seq<(u32, int, u64)> = Seq::empty();
    proof {
        lemma_prepend_start(meta_walk(d, c0, end as int, mdir_check(d)));
    }
    while *pos < end
        invariant
            d == data@,
            c0 == *old(pos),
            *pos >= 8,
            meta_walk(d, c0, end as int, mdir_check(d)) == prepend(kids, meta_walk(d, *pos as int, end as int, mdir_check(d))),
            walk_end(d, c0, end as int, u64::MAX, "meta box contains a box with a larger size than it", mdir_check(d))
                == walk_end(d, *pos as int, end as int, u64::MAX, "meta box contains a box with a larger size than it", mdir_check(d)),
            match last_named(kids, ILST) {
                None => ilst is None,
                Some((q, s)) => ilst matches Some(x) && ilst_rel(d, q, s, x),
            },
        decreases dist(*pos as int, end as int),
    {
        let current = *pos;
        let header = read_child(data, pos, u64::MAX, "meta box contains a box with a larger size than it")?;
        let q = *pos;
        let name = header.name.value();
        if name == ILST {
            ilst = Some(Ilst::read(data, pos, header.size)?);
        } else {
            skip_child(pos, header.size);
        }
        if *pos <= current {
            return Err(Error::InvalidData("box does not reach past its own header"));
        }
        proof {
            let c = (name, q as int, header.size);
            lemma_prepend_step(kids, c, meta_walk(d, *pos as int, end as int, mdir_check(d)));
            lemma_last_named_push(kids, c, ILST);
            kids = kids.push(c);
        }
    }
    proof {
        lemma_prepend_done(kids);
    }
    Ok(ilst)
}

/// Copies out the children but the `hdlr` from the position to `end`.
fn read_raw(data: &[u8], pos: &mut u64, end: u64) -> (r: Result<Vec<(FourCC, Vec<u8>)>, Error>)
    requires
        *old(pos) >= 8,
    ensures
        match meta_walk(data@, *old(pos) as int, end as int, raw_check(data@)) {
            Err(e) => r == Err::<Vec<(FourCC, Vec<u8>)>, Error>(e),
            Ok(kids) => r matches Ok(items) && raw_rel(items@, raw_items(data@, kids)),
        },
        r is Ok ==> *final(pos) == walk_end(data@, *old(pos) as int, end as int, u64::MAX, "meta box contains a box with a larger size than it", raw_check(data@)),
{
    let ghost d = data@;
    let ghost c0 = *pos as int;
    let mut items: Vec<(FourCC, Vec<u8>)> = Vec::new();
    let ghost mut kids: Seq<(u32, int, u64)> = Seq::empty();
    proof {
        lemma_prepend_start(meta_walk(d, c0, end as int, raw_check(d)));
    }
    while *pos < end
        invariant
            d == data@,
            c0 == *old(pos),
            *pos >= 8,
            meta_walk(d, c0, end as int, raw_check(d)) == prepend(kids, meta_walk(d, *pos as int, end as int, raw_check(d))),
            walk_end(d, c0, end as int, u64::MAX, "meta box contains a box with a larger size than it", raw_check(d))
                == walk_end(d, *pos as int, end as int, u64::MAX, "meta box contains a box with a larger size than it", raw_check(d)),
            raw_rel(items@, raw_items(d, kids)),
        decreases dist(*pos as int, end as int),
    {
        let current = *pos;
        let header = read_child(data, pos, u64::MAX, "meta box contains a box with a larger size than it")?;
        let q = *pos;
        let name = header.name.value();
        if name == HDLR {
            skip_child(pos, header.size);
        } else {
            if header.size < 8 {
                return Err(Error::InvalidData("box smaller than its header"));
            }
            let bytes = read_bytes(data, pos, header.size - 8)?;
            items.push((header.name, bytes));
        }
        if *pos <= current {
            return Err(Error::InvalidData("box does not reach past its own header"));
        }
        proof {
            let c = (name, q as int, header.size);
            lemma_prepend_step(kids, c, meta_walk(d, *pos as int, end as int, raw_check(d)));
            lemma_raw_items_push(d, kids, c);
            kids = kids.push(c);
        }
    }
    proof {
        lemma_prepend_done(kids);
    }
    Ok(items)
}

impl Meta {
    /// Reads the box whose data starts at the position, leaving the stream
    /// where its last child ends. The `hdlr` child is looked for first; then
    /// the children are read again by the layout it names.
    pub fn read(data: &[u8], pos: &mut u64, size: u64) -> (r: Result<Self, Error>)
        requires
            *old(pos) >= 8,
        ensures
            outcome(r, meta_res(data@, *old(pos) as int, size), |x: Meta| meta_rel(data@, *old(pos) as int, size, x)),
            r is Ok ==> *final(pos) == meta_end(data@, *old(pos) as int, size),
            meta_content(data@, *old(pos) as int) is Err && fits(data@, *old(pos) as int, 8) ==> *final(pos)
                == *old(pos) + 8,
            meta_content(data@, *old(pos) as int) is Ok ==> ({
                let c = meta_content(data@, *old(pos) as int)->Ok_0;
                let end = *old(pos) - 8 + size;
                let hdlr_walk = meta_walk(data@, c, end, hdlr_check(data@));
                &&& end > u64::MAX ==> *final(pos) == c
                &&& end <= u64::MAX && hdlr_walk is Ok && last_named(hdlr_walk->Ok_0, HDLR) is None
                    ==> *final(pos) == walk_end(data@, c, end, u64::MAX, "meta box contains a box with a larger size than it", hdlr_check(data@))
            }),
    {
        let p0 = *pos;
        let extended_header = read_u32(data, pos)?;
        if extended_header != 0 {
            // The version and flags must be 0; some files leave them out
            // and start straight with the `hdlr` child.
            let possible_hdlr = read_u32(data, pos)?;
            if possible_hdlr == HDLR {
                *pos = *pos - 8;
            } else {
                return Err(Error::UnsupportedAtomVersion(FourCC::from_u32(META), (extended_header >> 24u32) as u8));
            }
        }
        let content_start = *pos;
        let end = box_end(p0, size)?;
        let hdlr = match find_hdlr(data, pos, end)? {
            None => { return Err(Error::AtomNotFound(FourCC::from_u32(HDLR))); },
            Some(h) => h,
        };
        *pos = content_start;
        if hdlr.handler_type.value() == MDIR {
            let ilst = read_mdir(data, pos, end)?;
            Ok(Meta::Mdir { ilst })
        } else {
            let items = read_raw(data, pos, end)?;
            Ok(Meta::Unknown { hdlr, data: items })
        }
    }
}

} // verus!
