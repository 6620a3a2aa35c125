//! `ctts`: the composition offset table: runs of samples sharing a rendering offset.
use vstd::prelude::*;
use crate::mp4::error::Error;
use crate::mp4::stream::{fits, be24, be32, sat_sub, read_u32};
use crate::mp4::atom::{read_full_header, spec_full_header, box_end, spec_overflow, outcome};

verus! {

#[derive(Debug, Clone, Copy, PartialEq, Eq, Structural)]
pub struct Entry {
    pub sample_count: u32,
    pub sample_offset: i32,
}

#[derive(Debug, Clone)]
pub struct Ctts {
    pub version: u8,
    pub flags: u32,
    pub entries: Vec<Entry>,
}

/// The `n` entries stored at `q`, eight bytes each.
pub open spec fn spec_entries(d: Seq<u8>, q: int, n: nat) -> Seq<Entry> {
    Seq::new(n, |i: int| Entry { sample_count: be32(d, q + 8 * i), sample_offset: be32(d, q + 8 * i + 4) as i32 })
}

pub open spec fn ctts_res(d: Seq<u8>, p: int, size: u64) -> Result<(), Error> {
    match spec_full_header(d, p) {
        Err(e) => Err(e),
        Ok(fh) => if !fits(d, p + 4, 4) {
            Err(Error::Io)
        } else if be32(d, p + 4) > sat_sub(sat_sub(size as int, 12), 4) / 8 {
            Err(Error::InvalidData("ctts entry_count indicates more entries than could fit in the box"))
        } else if be32(d, p + 4) > 0 && !fits(d, p + 8, 8 * be32(d, p + 4)) {
            Err(Error::Io)
        } else if p - 8 + size > u64::MAX {
            Err(spec_overflow())
        } else {
            Ok(())
        },
    }
}

pub open spec fn ctts_rel(d: Seq<u8>, p: int, size: u64, x: Ctts) -> bool {
    &&& x.version == d[p]
    &&& x.flags == be24(d, p + 1)
    &&& x.entries@ == spec_entries(d, p + 8, be32(d, p + 4) as nat)
}

impl Ctts {
    /// Reads the box whose data starts at the position, and moves to its end.
    pub fn read(data: &[u8], pos: &mut u64, size: u64) -> (r: Result<Self, Error>)
        requires
            *old(pos) >= 8,
        ensures
            outcome(r, ctts_res(data@, *old(pos) as int, size), |x: Ctts| ctts_rel(data@, *old(pos) as int, size, x)),
            r is Ok ==> *final(pos) == *old(pos) - 8 + size,
    {
        let p0 = *pos;
        let full_header = read_full_header(data, pos)?;
        let entry_count = read_u32(data, pos)?;
        let room = if size > 16 {
            size - 16
        } else {
            0
        };
        if entry_count as u64 > room / 8 {
            return Err(Error::InvalidData("ctts entry_count indicates more entries than could fit in the box"));
        }
        let ghost q = *pos as int;
        let mut entries: Vec<Entry> = Vec::new();
        let mut i: u32 = 0;
        while i < entry_count
            invariant
                p0 == *old(pos),
                spec_full_header(data@, p0 as int) is Ok,
                fits(data@, p0 + 4, 4),
                entry_count == be32(data@, p0 + 4),
                entry_count <= sat_sub(sat_sub(size as int, 12), 4) / 8,
                q == p0 + 8,
                i <= entry_count,
                *pos == q + 8 * i,
                i > 0 ==> fits(data@, q, 8 * i),
                entries@ =~= spec_entries(data@, q, i as nat),
            decreases entry_count - i,
        {
            let sample_count = read_u32(data, pos)?;
            let second = read_u32(data, pos)?;
            entries.push(Entry { sample_count, sample_offset: second as i32 });
            i = i + 1;
        }
        *pos = box_end(p0, size)?;
        Ok(Ctts { version: full_header.version, flags: full_header.flags, entries })
    }
}

} // verus!
