//! `ilst`: the item list of iTunes-style metadata, and its items.
use vstd::prelude::*;
use crate::fourcc::{FourCC, spec_from_u32};
use crate::mp4::error::Error;
use crate::mp4::atom::{box_end, spec_overflow, outcome, dist};
use crate::mp4::atom::constant_name::{DATA, NAME, DAY, COVR, DESC};
use crate::mp4::atom::data::{Data, MetadataKey, data_res, data_rel};
use crate::mp4::atom::walk::{walk, walk_end, read_child, skip_child, prepend, ends, last_named, lemma_prepend_step, lemma_prepend_start, lemma_prepend_done, lemma_last_named_push};

verus! {

/// One metadata item: the value in its `data` child.
#[derive(Debug, Clone)]
pub struct IlstItem {
    pub data: Data,
}

/// What reading a child of an item gives.
pub open spec fn item_check(d: Seq<u8>) -> spec_fn(u32, int, u64) -> Result<int, Error> {
    |n: u32, q: int, s: u64| ends(if n == DATA { data_res(d, q, s) } else { Ok(()) }, q, s)
}

/// The children of the item whose data starts at `p`.
pub open spec fn item_kids(d: Seq<u8>, p: int, size: u64) -> Result<Seq<(u32, int, u64)>, Error> {
    walk(d, p, p - 8 + size, size, "ilst item box contains a box with a larger size than it", item_check(d))
}

pub open spec fn item_res(d: Seq<u8>, p: int, size: u64) -> Result<(), Error> {
    if p - 8 + size > u64::MAX {
        Err(spec_overflow())
    } else {
        match item_kids(d, p, size) {
            Err(e) => Err(e),
            Ok(kids) => if last_named(kids, DATA) is None {
                Err(Error::AtomNotFound(spec_from_u32(DATA)))
            } else {
                Ok(())
            },
        }
    }
}

pub open spec fn item_rel(d: Seq<u8>, p: int, size: u64, x: IlstItem) -> bool {
    let (q, s) = last_named(item_kids(d, p, size)->Ok_0, DATA)->Some_0;
    data_rel(d, q, s, x.data)
}

impl IlstItem {
    /// Reads the item whose data starts at the position, and moves to its
    /// end. The last `data` child is kept; one is needed.
    pub fn read(data: &[u8], pos: &mut u64, size: u64) -> (r: Result<Self, Error>)
        requires
            *old(pos) >= 8,
        ensures
            outcome(r, item_res(data@, *old(pos) as int, size), |x: IlstItem| item_rel(data@, *old(pos) as int, size, x)),
            r is Ok ==> *final(pos) == *old(pos) - 8 + size,
            *old(pos) - 8 + size > u64::MAX ==> *final(pos) == *old(pos),
            r is Err && *old(pos) - 8 + size <= u64::MAX && item_kids(data@, *old(pos) as int, size) is Ok
                ==> *final(pos) == walk_end(data@, *old(pos) as int, *old(pos) - 8 + size, size, "ilst item box contains a box with a larger size than it", item_check(data@)),
    {
        let p0 = *pos;
        let end = box_end(p0, size)?;
        let mut value: Option<Data> = None;
        let ghost d = data@;
        let ghost mut kids: Seq<(u32, int, u64)> = Seq::empty();
        proof {
            lemma_prepend_start(item_kids(d, p0 as int, size));
        }
        while *pos < end
            invariant
                d == data@,
                p0 == *old(pos),
                end == p0 - 8 + size,
                *pos >= 8,
                item_kids(d, p0 as int, size) == prepend(kids, walk(d, *pos as int, end as int, size, "ilst item box contains a box with a larger size than it", item_check(d))),
                walk_end(d, p0 as int, end as int, size, "ilst item box contains a box with a larger size than it", item_check(d)) == walk_end(d, *pos as int, end as int, size, "ilst item box contains a box with a larger size than it", item_check(d)),
                match last_named(kids, DATA) {
                    None => value is None,
                    Some((q, s)) => value matches Some(x) && data_rel(d, q, s, x),
                },
            decreases dist(*pos as int, end as int),
        {
            let current = *pos;
            let header = read_child(data, pos, size, "ilst item box contains a box with a larger size than it")?;
            let q = *pos;
            let name = header.name.value();
            if name == DATA {
                value = Some(Data::read(data, pos, header.size)?);
            } else {
                skip_child(pos, header.size);
            }
            if *pos <= current {
                return Err(Error::InvalidData("box does not reach past its own header"));
            }
            proof {
                let c = (name, q as int, header.size);
                lemma_prepend_step(kids, c, walk(d, *pos as int, end as int, size, "ilst item box contains a box with a larger size than it", item_check(d)));
                lemma_last_named_push(kids, c, DATA);
                kids = kids.push(c);
            }
        }
        proof {
            lemma_prepend_done(kids);
        }
        match value {
            None => Err(Error::AtomNotFound(FourCC::from_u32(DATA))),
            Some(value) => {
                *pos = end;
                Ok(IlstItem { data: value })
            },
        }
    }
}

/// The metadata items, each key once, in the order title, year, poster,
/// summary; where the list names a key twice, the later item is kept.
#[derive(Debug, Clone)]
pub struct Ilst {
    pub items: Vec<(MetadataKey, IlstItem)>,
}

/// The name of the box that holds the item of a key.
pub open spec fn key_name(k: MetadataKey) -> u32 {
    match k {
        MetadataKey::Title => NAME,
        MetadataKey::Year => DAY,
        MetadataKey::Poster => COVR,
        MetadataKey::Summary => DESC,
    }
}

/// What reading a child of `ilst` gives.
pub open spec fn ilst_check(d: Seq<u8>) -> spec_fn(u32, int, u64) -> Result<int, Error> {
    |n: u32, q: int, s: u64|
        ends(if n == NAME || n == DAY || n == COVR || n == DESC { item_res(d, q, s) } else { Ok(()) }, q, s)
}

/// The children of the `ilst` box whose data starts at `p`.
pub open spec fn ilst_kids(d: Seq<u8>, p: int, size: u64) -> Result<Seq<(u32, int, u64)>, Error> {
    walk(d, p, p - 8 + size, size, "ilst box contains a box with a larger size than it", ilst_check(d))
}

/// The key, where the list has an item of it.
pub open spec fn present(kids: Seq<(u32, int, u64)>, k: MetadataKey) -> Seq<MetadataKey> {
    if last_named(kids, key_name(k)) is Some {
        seq![k]
    } else {
        Seq::empty()
    }
}

/// The keys the list has items of, in order.
pub open spec fn ilst_keys(kids: Seq<(u32, int, u64)>) -> Seq<MetadataKey> {
    present(kids, MetadataKey::Title) + present(kids, MetadataKey::Year) + present(kids, MetadataKey::Poster)
        + present(kids, MetadataKey::Summary)
}

pub open spec fn ilst_res(d: Seq<u8>, p: int, size: u64) -> Result<(), Error> {
    if p - 8 + size > u64::MAX {
        Err(spec_overflow())
    } else {
        match ilst_kids(d, p, size) {
            Err(e) => Err(e),
            Ok(_) => Ok(()),
        }
    }
}

/// Each entry holds the last item of its key.
pub open spec fn items_rel(d: Seq<u8>, kids: Seq<(u32, int, u64)>, items: Seq<(MetadataKey, IlstItem)>, keys: Seq<MetadataKey>) -> bool {
    &&& items.len() == keys.len()
    &&& forall|i: int| 0 <= i < items.len() ==> {
        &&& #[trigger] items[i].0 == keys[i]
        &&& item_rel(d, last_named(kids, key_name(keys[i]))->Some_0.0, last_named(kids, key_name(keys[i]))->Some_0.1, items[i].1)
    }
}

pub open spec fn ilst_rel(d: Seq<u8>, p: int, size: u64, x: Ilst) -> bool {
    let kids = ilst_kids(d, p, size)->Ok_0;
    items_rel(d, kids, x.items@, ilst_keys(kids))
}

/// Puts the item of `k` last, where there is one.
fn push_item(items: &mut Vec<(MetadataKey, IlstItem)>, k: MetadataKey, item: Option<IlstItem>)
    ensures
        item matches Some(x) ==> final(items)@ == old(items)@.push((k, x)),
        item is None ==> final(items)@ == old(items)@,
{
    if let Some(x) = item {
        items.push((k, x));
    }
}

impl Ilst {
    /// Reads the box whose data starts at the position, and moves to its end.
    #[verifier::rlimit(30)]
    pub fn read(data: &[u8], pos: &mut u64, size: u64) -> (r: Result<Self, Error>)
        requires
            *old(pos) >= 8,
        ensures
            outcome(r, ilst_res(data@, *old(pos) as int, size), |x: Ilst| ilst_rel(data@, *old(pos) as int, size, x)),
            r is Ok ==> *final(pos) == *old(pos) - 8 + size,
            *old(pos) - 8 + size > u64::MAX ==> *final(pos) == *old(pos),
            r is Err && *old(pos) - 8 + size <= u64::MAX && ilst_kids(data@, *old(pos) as int, size) is Ok
                ==> *final(pos) == walk_end(data@, *old(pos) as int, *old(pos) - 8 + size, size, "ilst box contains a box with a larger size than it", ilst_check(data@)),
    {
        let p0 = *pos;
        let end = box_end(p0, size)?;
        let mut title: Option<IlstItem> = None;
        let mut year: Option<IlstItem> = None;
        let mut poster: Option<IlstItem> = None;
        let mut summary: Option<IlstItem> = None;
        let ghost d = data@;
        let ghost mut kids: Seq<(u32, int, u64)> = Seq::empty();
        proof {
            lemma_prepend_start(ilst_kids(d, p0 as int, size));
        }
        while *pos < end
            invariant
                d == data@,
                p0 == *old(pos),
                end == p0 - 8 + size,
                *pos >= 8,
                ilst_kids(d, p0 as int, size) == prepend(kids, walk(d, *pos as int, end as int, size, "ilst box contains a box with a larger size than it", ilst_check(d))),
                walk_end(d, p0 as int, end as int, size, "ilst box contains a box with a larger size than it", ilst_check(d)) == walk_end(d, *pos as int, end as int, size, "ilst box contains a box with a larger size than it", ilst_check(d)),
                match last_named(kids, NAME) {
                    None => title is None,
                    Some((q, s)) => title matches Some(x) && item_rel(d, q, s, x),
                },
                match last_named(kids, DAY) {
                    None => year is None,
                    Some((q, s)) => year matches Some(x) && item_rel(d, q, s, x),
                },
                match last_named(kids, COVR) {
                    None => poster is None,
                    Some((q, s)) => poster matches Some(x) && item_rel(d, q, s, x),
                },
                match last_named(kids, DESC) {
                    None => summary is None,
                    Some((q, s)) => summary matches Some(x) && item_rel(d, q, s, x),
                },
            decreases dist(*pos as int, end as int),
        {
            let current = *pos;
            let header = read_child(data, pos, size, "ilst box contains a box with a larger size than it")?;
            let q = *pos;
            let name = header.name.value();
            if name == NAME {
                title = Some(IlstItem::read(data, pos, header.size)?);
            } else if name == DAY {
                year = Some(IlstItem::read(data, pos, header.size)?);
            } else if name == COVR {
                poster = Some(IlstItem::read(data, pos, header.size)?);
            } else if name == DESC {
                summary = Some(IlstItem::read(data, pos, header.size)?);
            } else {
                skip_child(pos, header.size);
            }
            if *pos <= current {
                return Err(Error::InvalidData("box does not reach past its own header"));
            }
            proof {
                let c = (name, q as int, header.size);
                lemma_prepend_step(kids, c, walk(d, *pos as int, end as int, size, "ilst box contains a box with a larger size than it", ilst_check(d)));
                lemma_last_named_push(kids, c, NAME);
                lemma_last_named_push(kids, c, DAY);
                lemma_last_named_push(kids, c, COVR);
                lemma_last_named_push(kids, c, DESC);
                kids = kids.push(c);
            }
        }
        proof {
            lemma_prepend_done(kids);
        }
        let mut items: Vec<(MetadataKey, IlstItem)> = Vec::new();
        push_item(&mut items, MetadataKey::Title, title);
        assert(items_rel(d, kids, items@, present(kids, MetadataKey::Title)));
        push_item(&mut items, MetadataKey::Year, year);
        assert(items_rel(d, kids, items@, present(kids, MetadataKey::Title) + present(kids, MetadataKey::Year)));
        push_item(&mut items, MetadataKey::Poster, poster);
        assert(items_rel(d, kids, items@, present(kids, MetadataKey::Title) + present(kids, MetadataKey::Year) + present(kids, MetadataKey::Poster)));
        push_item(&mut items, MetadataKey::Summary, summary);
        *pos = end;
        Ok(Ilst { items })
    }
}

} // verus!
