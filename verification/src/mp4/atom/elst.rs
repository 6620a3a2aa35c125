//! `elst`: the edit list, mapping the presentation timeline onto the media.
use vstd::prelude::*;
use crate::mp4::error::Error;
use crate::mp4::stream::{fits, be16, be24, be32, be64, sat_sub, read_u16, read_u32, read_u64};
use crate::mp4::atom::{read_full_header, spec_full_header, box_end, spec_overflow, outcome};

verus! {

#[derive(Debug, Clone, Copy, PartialEq, Eq, Structural)]
pub struct Entry {
    pub segment_duration: u64,
    pub media_time: u64,
    pub media_rate: u16,
    pub media_rate_fraction: u16,
}

#[derive(Debug, Clone)]
pub struct Elst {
    pub version: u8,
    pub flags: u32,
    pub entries: Vec<Entry>,
}

/// Bytes `n` entries take.
pub open spec fn entries_len(version: u8, n: int) -> int {
    if version == 1 {
        20 * n
    } else {
        12 * n
    }
}

pub open spec fn spec_entry(d: Seq<u8>, q: int, v: u8, i: int) -> Entry {
    if v == 1 {
        Entry {
            segment_duration: be64(d, q + 20 * i),
            media_time: be64(d, q + 20 * i + 8),
            media_rate: be16(d, q + 20 * i + 16),
            media_rate_fraction: be16(d, q + 20 * i + 18),
        }
    } else {
        Entry {
            segment_duration: be32(d, q + 12 * i) as u64,
            media_time: be32(d, q + 12 * i + 4) as u64,
            media_rate: be16(d, q + 12 * i + 8),
            media_rate_fraction: be16(d, q + 12 * i + 10),
        }
    }
}

pub open spec fn elst_res(d: Seq<u8>, p: int, size: u64) -> Result<(), Error> {
    match spec_full_header(d, p) {
        Err(e) => Err(e),
        Ok(fh) => if !fits(d, p + 4, 4) {
            Err(Error::Io)
        } else if (fh.version == 1 && be32(d, p + 4) > sat_sub(sat_sub(size as int, 12), 4) / 20)
            || (fh.version != 1 && be32(d, p + 4) > sat_sub(sat_sub(size as int, 12), 4) / 12) {
            Err(Error::InvalidData("elst entry_count indicates more entries than could fit in the box"))
        } else if be32(d, p + 4) > 0 && !fits(d, p + 8, entries_len(fh.version, be32(d, p + 4) as int)) {
            Err(Error::Io)
        } else if p - 8 + size > u64::MAX {
            Err(spec_overflow())
        } else {
            Ok(())
        },
    }
}

pub open spec fn elst_rel(d: Seq<u8>, p: int, size: u64, x: Elst) -> bool {
    &&& x.version == d[p]
    &&& x.flags == be24(d, p + 1)
    &&& x.entries@ == Seq::new(be32(d, p + 4) as nat, |i: int| spec_entry(d, p + 8, d[p], i))
}

impl Elst {
    /// Reads the box whose data starts at the position, and moves to its end.
    pub fn read(data: &[u8], pos: &mut u64, size: u64) -> (r: Result<Self, Error>)
        requires
            *old(pos) >= 8,
        ensures
            outcome(r, elst_res(data@, *old(pos) as int, size), |x: Elst| elst_rel(data@, *old(pos) as int, size, x)),
            r is Ok ==> *final(pos) == *old(pos) - 8 + size,
    {
        let p0 = *pos;
        let full_header = read_full_header(data, pos)?;
        let entry_count = read_u32(data, pos)?;
        let v1 = full_header.version == 1;
        let esize: u64 = if v1 {
            20
        } else {
            12
        };
        let room = if size > 16 {
            size - 16
        } else {
            0
        };
        if entry_count as u64 > room / esize {
            return Err(
                Error::InvalidData(
                    "elst entry_count indicates more entries than could fit in the box",
                ),
            );
        }
        let ghost q = *pos as int;
        let ghost v = full_header.version;
        let mut entries: Vec<Entry> = Vec::new();
        let mut i: u32 = 0;
        while i < entry_count
            invariant
                p0 == *old(pos),
                spec_full_header(data@, p0 as int) == Ok::<_, Error>(full_header),
                v == full_header.version,
                v1 == (v == 1),
                fits(data@, p0 + 4, 4),
                entry_count == be32(data@, p0 + 4),
                v == 1 ==> entry_count <= sat_sub(sat_sub(size as int, 12), 4) / 20,
                v != 1 ==> entry_count <= sat_sub(sat_sub(size as int, 12), 4) / 12,
                q == p0 + 8,
                i <= entry_count,
                *pos == q + entries_len(v, i as int),
                i > 0 ==> fits(data@, q, entries_len(v, i as int)),
                entries@ =~= Seq::new(i as nat, |j: int| spec_entry(data@, q, v, j)),
            decreases entry_count - i,
        {
            let (segment_duration, media_time) = if v1 {
                let s = read_u64(data, pos)?;
                let m = read_u64(data, pos)?;
                (s, m)
            } else {
                let s = read_u32(data, pos)? as u64;
                let m = read_u32(data, pos)? as u64;
                (s, m)
            };
            let media_rate = read_u16(data, pos)?;
            let media_rate_fraction = read_u16(data, pos)?;
            entries.push(Entry { segment_duration, media_time, media_rate, media_rate_fraction });
            i = i + 1;
        }
        *pos = box_end(p0, size)?;
        Ok(Elst { version: full_header.version, flags: full_header.flags, entries })
    }
}

} // verus!
