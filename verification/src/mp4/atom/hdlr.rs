//! `hdlr`: the handler box, naming what kind of media a track holds.
use vstd::prelude::*;
use vstd::utf8::{valid_utf8, decode_utf8};
use crate::fourcc::{FourCC, spec_fourcc_at};
use crate::mp4::error::Error;
use crate::mp4::stream::{fits, be24, read_u8, read_u32, read_bytes, skip_bytes};
use crate::mp4::atom::{read_full_header, spec_full_header, box_end, spec_overflow, outcome};
use crate::mp4::atom::common::string_from_utf8;

verus! {

#[derive(Debug, Clone)]
pub struct Hdlr {
    pub version: u8,
    pub flags: u32,
    pub handler_type: FourCC,
    pub name: String,
}

/// How many bytes of `s` come before its first NUL, or all of them.
pub open spec fn nul_index(s: Seq<u8>) -> int
    decreases s.len(),
{
    if s.len() == 0 {
        0
    } else if s[0] == 0 {
        0
    } else {
        1 + nul_index(s.drop_first())
    }
}

/// A NUL-terminated string's text: the bytes before the first NUL decoded,
/// or nothing when they are not UTF-8.
pub open spec fn c_string(s: Seq<u8>) -> Seq<char> {
    let b = s.take(nul_index(s));
    if valid_utf8(b) {
        decode_utf8(b)
    } else {
        seq![]
    }
}

proof fn lemma_nul_index(s: Seq<u8>, i: int)
    requires
        0 <= i <= s.len(),
        forall|j: int| 0 <= j < i ==> s[j] != 0,
    ensures
        i < s.len() && s[i] == 0 ==> nul_index(s) == i,
        i == s.len() ==> nul_index(s) == i,
    decreases i,
{
    if i > 0 {
        assert forall|j: int| 0 <= j < i - 1 implies s.drop_first()[j] != 0 by {
            assert(s.drop_first()[j] == s[j + 1]);
        }
        lemma_nul_index(s.drop_first(), i - 1);
    }
}

/// The text of a NUL-terminated string stored in `bytes`, or an empty string
/// when it is not UTF-8.
pub fn string_until_nul(bytes: Vec<u8>) -> (r: String)
    ensures
        r@ == c_string(bytes@),
{
    let mut i: usize = 0;
    while i < bytes.len() && bytes[i] != 0
        invariant
            i <= bytes@.len(),
            forall|j: int| 0 <= j < i ==> bytes@[j] != 0,
        decreases bytes.len() - i,
    {
        i = i + 1;
    }
    proof {
        lemma_nul_index(bytes@, i as int);
    }
    let ghost whole = bytes@;
    let mut bytes = bytes;
    bytes.truncate(i);
    assert(bytes@ =~= whole.take(i as int));
    match string_from_utf8(bytes) {
        Some(s) => s,
        None => String::new(),
    }
}

pub open spec fn hdlr_res(d: Seq<u8>, p: int, size: u64) -> Result<(), Error> {
    match spec_full_header(d, p) {
        Err(e) => Err(e),
        Ok(fh) => if !fits(d, p + 4, 8) {
            Err(Error::Io)
        } else if p + 24 > u64::MAX {
            Err(Error::Io)
        } else if size < 32 {
            Err(Error::InvalidData("hdlr size too small"))
        } else if !fits(d, p + 24, size - 32) {
            Err(Error::Io)
        } else if p - 8 + size > u64::MAX {
            Err(spec_overflow())
        } else {
            Ok(())
        },
    }
}

pub open spec fn hdlr_rel(d: Seq<u8>, p: int, size: u64, x: Hdlr) -> bool {
    &&& x.version == d[p]
    &&& x.flags == be24(d, p + 1)
    &&& x.handler_type == spec_fourcc_at(d, p + 8)
    &&& x.name@ == c_string(d.subrange(p + 24, p + 24 + size - 32))
}

impl Hdlr {
    /// Reads the box whose data starts at the position, and moves to its end.
    pub fn read(data: &[u8], pos: &mut u64, size: u64) -> (r: Result<Self, Error>)
        requires
            *old(pos) >= 8,
        ensures
            outcome(r, hdlr_res(data@, *old(pos) as int, size), |x: Hdlr| hdlr_rel(data@, *old(pos) as int, size, x)),
            r is Ok ==> *final(pos) == *old(pos) - 8 + size,
    {
        let p0 = *pos;
        let full_header = read_full_header(data, pos)?;
        read_u32(data, pos)?;  // pre-defined
        let h0 = read_u8(data, pos)?;
        let h1 = read_u8(data, pos)?;
        let h2 = read_u8(data, pos)?;
        let h3 = read_u8(data, pos)?;
        skip_bytes(data, pos, 12)?;  // reserved
        if size < 32 {
            return Err(Error::InvalidData("hdlr size too small"));
        }
        let buf = read_bytes(data, pos, size - 32)?;
        let name = string_until_nul(buf);
        *pos = box_end(p0, size)?;
        Ok(Hdlr {
            version: full_header.version,
            flags: full_header.flags,
            handler_type: FourCC([h0, h1, h2, h3]),
            name,
        })
    }
}

} // verus!
