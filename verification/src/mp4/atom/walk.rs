//! Walking the children of a container box: each child's header, checked
//! against its parent, then the child read or passed over, up to the end of
//! the parent.
use vstd::prelude::*;
use crate::mp4::error::Error;
use crate::mp4::atom::{Header, read_header, spec_header, spec_overflow, spec_stuck, dist};

verus! {

/// The header of the child at `cur` and where its data starts, checked
/// against the parent's `size`: a child larger than its parent is refused
/// with `msg`, and so is one that ends past the largest stream position.
pub open spec fn spec_child(d: Seq<u8>, cur: int, size: u64, msg: &'static str) -> Result<(Header, int), Error> {
    match spec_header(d, cur) {
        Err(e) => Err(e),
        Ok((h, q)) => if h.size > size {
            Err(Error::InvalidData(msg))
        } else if q - 8 + h.size > u64::MAX {
            Err(spec_overflow())
        } else {
            Ok((h, q))
        },
    }
}

/// Reads the header of the child at the position and checks it against the
/// parent; moves to the child's data.
pub fn read_child(data: &[u8], pos: &mut u64, size: u64, msg: &'static str) -> (r: Result<Header, Error>)
    ensures
        spec_child(data@, *old(pos) as int, size, msg) == match r {
            Ok(h) => Ok((h, *final(pos) as int)),
            Err(e) => Err(e),
        },
        r is Ok ==> *final(pos) >= 8 && *final(pos) - 8 + r->Ok_0.size <= u64::MAX,
{
    let header = read_header(data, pos)?;
    if header.size > size {
        return Err(Error::InvalidData(msg));
    }
    let start = *pos - 8;
    if start > u64::MAX - header.size {
        return Err(Error::InvalidData("box extends past the largest stream position"));
    }
    Ok(header)
}

/// The children from `cur` to `end`, as name, data start and size. `check`
/// reads each child and says where the read leaves the stream, before the
/// walk goes on from there; the first error ends the walk, and so does a
/// child whose read does not move past where its header started.
pub open spec fn walk(
    d: Seq<u8>,
    cur: int,
    end: int,
    size: u64,
    msg: &'static str,
    check: spec_fn(u32, int, u64) -> Result<int, Error>,
) -> Result<Seq<(u32, int, u64)>, Error>
    decreases dist(cur, end),
{
    if cur >= end {
        Ok(Seq::empty())
    } else {
        match spec_child(d, cur, size, msg) {
            Err(e) => Err(e),
            Ok((h, q)) => match check(h.name.spec_value(), q, h.size) {
                Err(e) => Err(e),
                Ok(next) => if next <= cur {
                    Err(spec_stuck())
                } else {
                    prepend(seq![(h.name.spec_value(), q, h.size)], walk(d, next, end, size, msg, check))
                },
            },
        }
    }
}

/// Where a walk that succeeds leaves the stream: at or past `end`.
pub open spec fn walk_end(
    d: Seq<u8>,
    cur: int,
    end: int,
    size: u64,
    msg: &'static str,
    check: spec_fn(u32, int, u64) -> Result<int, Error>,
) -> int
    decreases dist(cur, end),
{
    if cur >= end {
        cur
    } else {
        match spec_child(d, cur, size, msg) {
            Err(_) => cur,
            Ok((h, q)) => match check(h.name.spec_value(), q, h.size) {
                Err(_) => cur,
                Ok(next) => if next <= cur {
                    cur
                } else {
                    walk_end(d, next, end, size, msg, check)
                },
            },
        }
    }
}

/// A child read that, where it succeeds, ends where the child does.
pub open spec fn ends(r: Result<(), Error>, q: int, s: u64) -> Result<int, Error> {
    match r {
        Ok(_) => Ok(q - 8 + s),
        Err(e) => Err(e),
    }
}

/// `done` put before what a walk gives, where it gives something.
pub open spec fn prepend<T>(done: Seq<T>, r: Result<Seq<T>, Error>) -> Result<Seq<T>, Error> {
    match r {
        Err(e) => Err(e),
        Ok(rest) => Ok(done + rest),
    }
}

/// Putting one more child before a walk's result.
pub proof fn lemma_prepend_step<T>(done: Seq<T>, c: T, r: Result<Seq<T>, Error>)
    ensures
        prepend(done, prepend(seq![c], r)) == prepend(done.push(c), r),
{
    if let Ok(rest) = r {
        assert(done + (seq![c] + rest) =~= done.push(c) + rest);
    }
}

/// Nothing put before a walk's result leaves it as it is.
pub proof fn lemma_prepend_start<T>(r: Result<Seq<T>, Error>)
    ensures
        prepend(Seq::<T>::empty(), r) == r,
{
    if let Ok(rest) = r {
        assert(Seq::<T>::empty() + rest =~= rest);
    }
}

/// A walk that has reached its end adds nothing.
pub proof fn lemma_prepend_done<T>(done: Seq<T>)
    ensures
        prepend(done, Ok(Seq::<T>::empty())) == Ok::<Seq<T>, Error>(done),
{
    assert(done + Seq::<T>::empty() =~= done);
}

/// The data start and size of the last child named `name`, if there is one:
/// a later child of a name replaces an earlier one.
pub open spec fn last_named(kids: Seq<(u32, int, u64)>, name: u32) -> Option<(int, u64)>
    decreases kids.len(),
{
    if kids.len() == 0 {
        None
    } else if kids.last().0 == name {
        Some((kids.last().1, kids.last().2))
    } else {
        last_named(kids.drop_last(), name)
    }
}

/// The last child named `name` after one more child.
pub proof fn lemma_last_named_push(kids: Seq<(u32, int, u64)>, c: (u32, int, u64), name: u32)
    ensures
        last_named(kids.push(c), name) == if c.0 == name {
            Some((c.1, c.2))
        } else {
            last_named(kids, name)
        },
{
    assert(kids.push(c).drop_last() =~= kids);
}

/// The data start and size of every child named `name`, in order.
pub open spec fn all_named(kids: Seq<(u32, int, u64)>, name: u32) -> Seq<(int, u64)>
    decreases kids.len(),
{
    if kids.len() == 0 {
        Seq::empty()
    } else if kids.last().0 == name {
        all_named(kids.drop_last(), name).push((kids.last().1, kids.last().2))
    } else {
        all_named(kids.drop_last(), name)
    }
}

/// Every child named `name` after one more child.
pub proof fn lemma_all_named_push(kids: Seq<(u32, int, u64)>, c: (u32, int, u64), name: u32)
    ensures
        all_named(kids.push(c), name) == if c.0 == name {
            all_named(kids, name).push((c.1, c.2))
        } else {
            all_named(kids, name)
        },
{
    assert(kids.push(c).drop_last() =~= kids);
}

/// Moves to where the child whose data starts at the position ends, passing
/// over it unread.
pub fn skip_child(pos: &mut u64, size: u64)
    requires
        *old(pos) >= 8,
        *old(pos) - 8 + size <= u64::MAX,
    ensures
        *final(pos) == *old(pos) - 8 + size,
{
    *pos = *pos - 8 + size;
}

} // verus!
