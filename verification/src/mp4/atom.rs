//! The boxes ("atoms") of an MP4 file: the header every box starts with, and
//! one module per box the reader understands.
use vstd::prelude::*;
use crate::fourcc::{FourCC, spec_fourcc_at};
use crate::mp4::error::Error;
use crate::mp4::stream::{fits, be32, be64, be16, be24, read_u8, read_u16, read_u24, read_u32, read_u64, read_bytes};
use crate::nalu::Nalu;

pub mod common;
pub mod constant_name;
pub mod mdhd;
pub mod mvhd;
pub mod tkhd;
pub mod hdlr;
pub mod vmhd;
pub mod smhd;
pub mod mehd;
pub mod trex;
pub mod stco;
pub mod co64;
pub mod stss;
pub mod stsz;
pub mod stts;
pub mod ctts;
pub mod stsc;
pub mod elst;
pub mod url;
pub mod data;
pub mod edts;
pub mod tx3g;
pub mod vp09;
pub mod avc1;
pub mod hev1;
pub mod mp4a;
pub mod walk;
pub mod stsd;
pub mod dinf;
pub mod stbl;
pub mod ilst;
pub mod meta;
pub mod mvex;
pub mod udta;
pub mod minf;
pub mod mdia;
pub mod trak;
pub mod moov;
pub mod ftyp;

verus! {

/// Bytes of a plain box header: size and name.
pub const HEADER_SIZE: u64 = 8;

/// Bytes of the version and flags a full box adds to its header.
pub const HEADER_EXT_SIZE: u64 = 4;

/// A box's name and size. The size counts the whole box, header included;
/// for a box with a 64-bit size it is that size less 8, so that `size - 8`
/// is the length of the box data either way. 0 means "to the end".
#[derive(Debug, Clone, Copy)]
pub struct Header {
    pub name: FourCC,
    pub size: u64,
}

impl Header {
    pub fn new(name: FourCC, size: u64) -> (r: Self)
        ensures
            r == (Header { name, size }),
    {
        Header { name, size }
    }
}

/// The header at `h`, and where the box data after it starts.
pub open spec fn spec_header(d: Seq<u8>, h: int) -> Result<(Header, int), Error> {
    if !fits(d, h, 8) {
        Err(Error::Io)
    } else {
        let size = be32(d, h);
        let name = spec_fourcc_at(d, h + 4);
        if size == 1 {
            if !fits(d, h + 8, 8) {
                Err(Error::Io)
            } else {
                let large = be64(d, h + 8);
                if large == 0 {
                    Ok((Header { name, size: 0 }, h + 16))
                } else if large < 16 {
                    Err(Error::InvalidData("64-bit box size too small"))
                } else {
                    Ok((Header { name, size: (large - 8) as u64 }, h + 16))
                }
            }
        } else {
            Ok((Header { name, size: size as u64 }, h + 8))
        }
    }
}

/// Reads a box header at the position and moves past it. A 64-bit size
/// under 16 is refused: it would leave less than nothing of the box.
pub fn read_header(data: &[u8], pos: &mut u64) -> (r: Result<Header, Error>)
    ensures
        spec_header(data@, *old(pos) as int) == match r {
            Ok(h) => Ok((h, *final(pos) as int)),
            Err(e) => Err(e),
        },
{
    let size = read_u32(data, pos)?;
    let n0 = read_u8(data, pos)?;
    let n1 = read_u8(data, pos)?;
    let n2 = read_u8(data, pos)?;
    let n3 = read_u8(data, pos)?;
    let name = FourCC([n0, n1, n2, n3]);
    if size == 1 {
        let largesize = read_u64(data, pos)?;
        if largesize == 0 {
            Ok(Header { name, size: 0 })
        } else if largesize < 16 {
            Err(Error::InvalidData("64-bit box size too small"))
        } else {
            Ok(Header { name, size: largesize - 8 })
        }
    } else {
        Ok(Header { name, size: size as u64 })
    }
}

/// The version and flags of a full box.
#[derive(Debug, Clone, Copy, PartialEq, Eq, Structural)]
pub struct FullHeader {
    pub version: u8,
    pub flags: u32,
}

pub open spec fn spec_full_header(d: Seq<u8>, p: int) -> Result<FullHeader, Error> {
    if !fits(d, p, 4) {
        Err(Error::Io)
    } else {
        Ok(FullHeader { version: d[p], flags: be24(d, p + 1) })
    }
}

/// Reads the version byte and the 24 flag bits of a full box.
pub fn read_full_header(data: &[u8], pos: &mut u64) -> (r: Result<FullHeader, Error>)
    ensures
        r == spec_full_header(data@, *old(pos) as int),
        r is Ok ==> *final(pos) == *old(pos) + 4,
{
    if *pos >= data.len() as u64 || data.len() as u64 - *pos < 4 {
        return Err(Error::Io);
    }
    let version = read_u8(data, pos)?;
    let flags = read_u24(data, pos)?;
    Ok(FullHeader { version, flags })
}

/// How a box read ends: `Ok` with a value `rel` accepts where `res` says
/// it succeeds, or the error `res` names.
pub open spec fn outcome<T>(r: Result<T, Error>, res: Result<(), Error>, rel: spec_fn(T) -> bool) -> bool {
    match r {
        Ok(x) => res is Ok && rel(x),
        Err(e) => res == Err::<(), Error>(e),
    }
}

/// The error of a box version this reader does not know.
pub open spec fn spec_bad_version() -> Error {
    Error::InvalidData("version must be 0 or 1")
}

/// Where the box whose data starts at `pos` begins.
pub fn read_position(pos: u64) -> (r: u64)
    requires
        pos >= HEADER_SIZE,
    ensures
        r == pos - 8,
{
    pos - HEADER_SIZE
}

/// The error for a box whose end lies past the largest stream position.
pub open spec fn spec_overflow() -> Error {
    Error::InvalidData("box extends past the largest stream position")
}

/// Where a box of `size` whose data starts at `pos` ends, as a seek to it
/// computes it.
pub fn box_end(pos: u64, size: u64) -> (r: Result<u64, Error>)
    requires
        pos >= 8,
    ensures
        match r {
            Ok(e) => e == pos - 8 + size,
            Err(e) => pos - 8 + size > u64::MAX && e == spec_overflow(),
        },
{
    let start = pos - HEADER_SIZE;
    if start > u64::MAX - size {
        return Err(Error::InvalidData("box extends past the largest stream position"));
    }
    Ok(start + size)
}

/// A NAL unit stored after its 16-bit length, and where it ends.
pub open spec fn spec_nalu_at(d: Seq<u8>, p: int) -> Result<(Seq<u8>, int), Error> {
    if !fits(d, p, 2) {
        Err(Error::Io)
    } else if !fits(d, p + 2, be16(d, p) as int) {
        Err(Error::Io)
    } else {
        Ok((d.subrange(p + 2, p + 2 + be16(d, p)), p + 2 + be16(d, p)))
    }
}

/// Reads a NAL unit stored after its 16-bit length.
pub fn read_nalu(data: &[u8], pos: &mut u64) -> (r: Result<Nalu, Error>)
    ensures
        spec_nalu_at(data@, *old(pos) as int) == match r {
            Ok(n) => Ok((n@, *final(pos) as int)),
            Err(e) => Err(e),
        },
{
    let length = read_u16(data, pos)?;
    let bytes = read_bytes(data, pos, length as u64)?;
    Ok(Nalu::from_slice(bytes.as_slice()))
}

/// `n` NAL units stored one after another, each after its 16-bit length,
/// and where they end.
pub open spec fn spec_nalus(d: Seq<u8>, p: int, n: nat) -> Result<(Seq<Seq<u8>>, int), Error>
    decreases n,
{
    if n == 0 {
        Ok((seq![], p))
    } else {
        match spec_nalus(d, p, (n - 1) as nat) {
            Err(e) => Err(e),
            Ok((s, q)) => match spec_nalu_at(d, q) {
                Err(e) => Err(e),
                Ok((u, r)) => Ok((s.push(u), r)),
            },
        }
    }
}

proof fn lemma_nalus_err(d: Seq<u8>, p: int, i: nat, n: nat)
    requires
        i <= n,
        spec_nalus(d, p, i) is Err,
    ensures
        spec_nalus(d, p, n) == spec_nalus(d, p, i),
    decreases n - i,
{
    if i < n {
        lemma_nalus_err(d, p, i, (n - 1) as nat);
    }
}

/// Reads `n` NAL units, each stored after its 16-bit length.
pub fn read_nalus(data: &[u8], pos: &mut u64, n: u16) -> (r: Result<Vec<Nalu>, Error>)
    ensures
        spec_nalus(data@, *old(pos) as int, n as nat) == match r {
            Ok(v) => Ok((crate::nalu::nalu_views(v@), *final(pos) as int)),
            Err(e) => Err(e),
        },
{
    let ghost p = *pos as int;
    let mut nalus: Vec<Nalu> = Vec::new();
    let mut i: u16 = 0;
    assert(crate::nalu::nalu_views(nalus@) =~= Seq::<Seq<u8>>::empty());
    while i < n
        invariant
            p == *old(pos),
            i <= n,
            spec_nalus(data@, p, i as nat) == Ok::<(Seq<Seq<u8>>, int), Error>((crate::nalu::nalu_views(nalus@), *pos as int)),
        decreases n - i,
    {
        let ghost before = nalus@;
        let nalu = match read_nalu(data, pos) {
            Ok(u) => u,
            Err(e) => {
                proof {
                    assert(spec_nalus(data@, p, (i + 1) as nat) == Err::<(Seq<Seq<u8>>, int), Error>(e));
                    lemma_nalus_err(data@, p, (i + 1) as nat, n as nat);
                }
                return Err(e);
            },
        };
        nalus.push(nalu);
        proof {
            assert(crate::nalu::nalu_views(nalus@) =~= crate::nalu::nalu_views(before).push(nalu@));
        }
        i = i + 1;
    }
    Ok(nalus)
}

/// How far `cur` is from `end`, or 0 once past it: what a walk over a box's
/// children still has to cover.
pub open spec fn dist(cur: int, end: int) -> nat {
    if cur < end {
        (end - cur) as nat
    } else {
        0
    }
}

/// The error for a child box of size zero, which would be read forever.
pub open spec fn spec_stuck() -> Error {
    Error::InvalidData("box does not reach past its own header")
}

} // verus!
