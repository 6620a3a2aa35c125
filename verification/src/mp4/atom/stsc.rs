//! `stsc`: the sample-to-chunk table: runs of chunks holding the same number
//! of samples, each with the number of its first sample worked out.
use vstd::prelude::*;
use crate::mp4::error::Error;
use crate::mp4::stream::{fits, be24, be32, sat_sub, read_u32};
use crate::mp4::atom::{read_full_header, spec_full_header, box_end, spec_overflow, outcome};

verus! {

#[derive(Debug, Clone, Copy, PartialEq, Eq, Structural)]
pub struct Entry {
    pub first_chunk: u32,
    pub samples_per_chunk: u32,
    pub sample_description_index: u32,
    /// Number of the first sample in `first_chunk`, counted from 1.
    pub first_sample: u32,
}

#[derive(Debug, Clone)]
pub struct Stsc {
    pub version: u8,
    pub flags: u32,
    pub entries: Vec<Entry>,
}

/// The number of the first sample of entry `i` of the table stored at `q`:
/// 1 for the first entry, and for each next one the previous one's plus its
/// chunks times their samples. None once that no longer fits 32 bits, or a
/// run of chunks would start before the one before it.
pub open spec fn stsc_first_sample(d: Seq<u8>, q: int, i: nat) -> Option<int>
    decreases i,
{
    if i == 0 {
        Some(1)
    } else {
        match stsc_first_sample(d, q, (i - 1) as nat) {
            None => None,
            Some(s) => {
                let fc = be32(d, q + 12 * (i - 1));
                let spc = be32(d, q + 12 * (i - 1) + 4);
                let nfc = be32(d, q + 12 * i);
                if nfc < fc || (nfc - fc) * spc + s > u32::MAX {
                    None
                } else {
                    Some((nfc - fc) * spc + s)
                }
            },
        }
    }
}

pub open spec fn spec_entry(d: Seq<u8>, q: int, i: int) -> Entry {
    Entry {
        first_chunk: be32(d, q + 12 * i),
        samples_per_chunk: be32(d, q + 12 * i + 4),
        sample_description_index: be32(d, q + 12 * i + 8),
        first_sample: stsc_first_sample(d, q, i as nat)->0 as u32,
    }
}

pub open spec fn stsc_res(d: Seq<u8>, p: int, size: u64) -> Result<(), Error> {
    match spec_full_header(d, p) {
        Err(e) => Err(e),
        Ok(fh) => if !fits(d, p + 4, 4) {
            Err(Error::Io)
        } else if be32(d, p + 4) > sat_sub(sat_sub(size as int, 12), 4) / 12 {
            Err(Error::InvalidData("stsc entry_count indicates more entries than could fit in the box"))
        } else if be32(d, p + 4) > 0 && !fits(d, p + 8, 12 * be32(d, p + 4)) {
            Err(Error::Io)
        } else if be32(d, p + 4) > 0 && stsc_first_sample(d, p + 8, (be32(d, p + 4) - 1) as nat) is None {
            Err(Error::InvalidData("attempt to calculate stsc sample_id with overflow"))
        } else if p - 8 + size > u64::MAX {
            Err(spec_overflow())
        } else {
            Ok(())
        },
    }
}

pub open spec fn stsc_rel(d: Seq<u8>, p: int, size: u64, x: Stsc) -> bool {
    &&& x.version == d[p]
    &&& x.flags == be24(d, p + 1)
    &&& x.entries@ == Seq::new(be32(d, p + 4) as nat, |i: int| spec_entry(d, p + 8, i))
}

proof fn lemma_first_sample_prefix(d: Seq<u8>, q: int, i: nat, j: nat)
    requires
        j <= i,
        stsc_first_sample(d, q, i) is Some,
    ensures
        stsc_first_sample(d, q, j) is Some,
    decreases i - j,
{
    if j < i {
        lemma_first_sample_prefix(d, q, (i - 1) as nat, j);
    }
}

impl Stsc {
    /// Reads the box whose data starts at the position, and moves to its end.
    pub fn read(data: &[u8], pos: &mut u64, size: u64) -> (r: Result<Self, Error>)
        requires
            *old(pos) >= 8,
        ensures
            outcome(r, stsc_res(data@, *old(pos) as int, size), |x: Stsc| stsc_rel(data@, *old(pos) as int, size, x)),
            r is Ok ==> *final(pos) == *old(pos) - 8 + size,
    {
        let p0 = *pos;
        let full_header = read_full_header(data, pos)?;
        let entry_count = read_u32(data, pos)?;
        let room = if size > 16 {
            size - 16
        } else {
            0
        };
        if entry_count as u64 > room / 12 {
            return Err(
                Error::InvalidData(
                    "stsc entry_count indicates more entries than could fit in the box",
                ),
            );
        }
        let ghost q = *pos as int;
        let mut raw: Vec<(u32, u32, u32)> = Vec::new();
        let mut i: u32 = 0;
        while i < entry_count
            invariant
                p0 == *old(pos),
                spec_full_header(data@, p0 as int) is Ok,
                fits(data@, p0 + 4, 4),
                entry_count == be32(data@, p0 + 4),
                entry_count <= sat_sub(sat_sub(size as int, 12), 4) / 12,
                q == p0 + 8,
                i <= entry_count,
                *pos == q + 12 * i,
                i > 0 ==> fits(data@, q, 12 * i),
                raw@.len() == i,
                forall|j: int|
                    0 <= j < i ==> #[trigger] raw@[j] == (
                        be32(data@, q + 12 * j),
                        be32(data@, q + 12 * j + 4),
                        be32(data@, q + 12 * j + 8),
                    ),
            decreases entry_count - i,
        {
            let first_chunk = read_u32(data, pos)?;
            let samples_per_chunk = read_u32(data, pos)?;
            let sample_description_index = read_u32(data, pos)?;
            raw.push((first_chunk, samples_per_chunk, sample_description_index));
            i = i + 1;
        }
        let mut entries: Vec<Entry> = Vec::new();
        let mut sample_id: u32 = 1;
        let mut k: usize = 0;
        let n = raw.len();
        while k < n
            invariant
                p0 == *old(pos),
                spec_full_header(data@, p0 as int) is Ok,
                fits(data@, p0 + 4, 4),
                entry_count == be32(data@, p0 + 4),
                entry_count <= sat_sub(sat_sub(size as int, 12), 4) / 12,
                q == p0 + 8,
                n == entry_count,
                entry_count > 0 ==> fits(data@, q, 12 * entry_count),
                raw@.len() == n,
                forall|j: int|
                    0 <= j < n ==> #[trigger] raw@[j] == (
                        be32(data@, q + 12 * j),
                        be32(data@, q + 12 * j + 4),
                        be32(data@, q + 12 * j + 8),
                    ),
                k <= n,
                entries@.len() == k,
                k < n ==> stsc_first_sample(data@, q, k as nat) == Some(sample_id as int),
                k > 0 ==> stsc_first_sample(data@, q, (k - 1) as nat) is Some,
                forall|j: int| 0 <= j < k ==> #[trigger] entries@[j] == spec_entry(data@, q, j),
            decreases n - k,
        {
            let (first_chunk, samples_per_chunk, sample_description_index) = raw[k];
            entries.push(
                Entry { first_chunk, samples_per_chunk, sample_description_index, first_sample: sample_id },
            );
            if k + 1 < n {
                let next_first_chunk = raw[k + 1].0;
                if next_first_chunk < first_chunk {
                    proof {
                        assert(stsc_first_sample(data@, q, (k + 1) as nat) is None);
                        if stsc_first_sample(data@, q, (entry_count - 1) as nat) is Some {
                            lemma_first_sample_prefix(data@, q, (entry_count - 1) as nat, (k + 1) as nat);
                        }
                    }
                    return Err(
                        Error::InvalidData("attempt to calculate stsc sample_id with overflow"),
                    );
                }
                let chunks = (next_first_chunk - first_chunk) as u64;
                assert(chunks * (samples_per_chunk as u64) <= 0xFFFF_FFFFu64 * 0xFFFF_FFFFu64) by (nonlinear_arith)
                    requires
                        chunks <= 0xFFFF_FFFFu64,
                        samples_per_chunk <= 0xFFFF_FFFFu32,
                ;
                let next = chunks * (samples_per_chunk as u64) + sample_id as u64;
                if next > 0xFFFF_FFFFu64 {
                    proof {
                        assert(stsc_first_sample(data@, q, (k + 1) as nat) is None);
                        if stsc_first_sample(data@, q, (entry_count - 1) as nat) is Some {
                            lemma_first_sample_prefix(data@, q, (entry_count - 1) as nat, (k + 1) as nat);
                        }
                    }
                    return Err(
                        Error::InvalidData("attempt to calculate stsc sample_id with overflow"),
                    );
                }
                sample_id = next as u32;
                assert(stsc_first_sample(data@, q, (k + 1) as nat) == Some(sample_id as int));
            }
            k = k + 1;
        }
        proof {
            assert(entries@ =~= Seq::new(entry_count as nat, |i: int| spec_entry(data@, q, i)));
        }
        *pos = box_end(p0, size)?;
        Ok(Stsc { version: full_header.version, flags: full_header.flags, entries })
    }
}

} // verus!
