//! Pieces several boxes share: the transformation matrix, and the language
//! code of a media header.
use vstd::prelude::*;
use vstd::utf8::{valid_utf8, decode_utf8};
use crate::mp4::error::Error;
use crate::mp4::stream::{fits, be16, be32, read_u16, read_u32};
use crate::types::{FixedU16, Fixed2_30};

verus! {

/// A video transformation matrix, as `tkhd` and `mvhd` store it: three rows
/// of two 16.16 values and one 2.30 value.
#[derive(Debug, Clone, Copy, PartialEq, Eq, Structural)]
pub struct Matrix {
    pub a: FixedU16,
    pub b: FixedU16,
    pub u: Fixed2_30,
    pub c: FixedU16,
    pub d: FixedU16,
    pub v: Fixed2_30,
    pub x: FixedU16,
    pub y: FixedU16,
    pub w: Fixed2_30,
}

impl Matrix {
    /// The unity matrix of ISO/IEC 14496-12.
    pub fn default() -> (r: Self)
        ensures
            r.a.0 == 0x00010000 && r.b.0 == 0 && r.u.0 == 0 && r.c.0 == 0 && r.d.0 == 0x00010000
                && r.v.0 == 0 && r.x.0 == 0 && r.y.0 == 0 && r.w.0 == 0x40000000,
    {
        Matrix {
            a: FixedU16::from_raw(0x00010000),
            b: FixedU16::from_raw(0),
            u: Fixed2_30::from_raw(0),
            c: FixedU16::from_raw(0),
            d: FixedU16::from_raw(0x00010000),
            v: Fixed2_30::from_raw(0),
            x: FixedU16::from_raw(0),
            y: FixedU16::from_raw(0),
            w: Fixed2_30::from_raw(0x40000000),
        }
    }
}

/// The matrix stored at `p`: nine 32-bit values.
pub open spec fn spec_matrix_at(d: Seq<u8>, p: int) -> Matrix {
    Matrix {
        a: FixedU16(be32(d, p)),
        b: FixedU16(be32(d, p + 4)),
        u: Fixed2_30(be32(d, p + 8) as i32),
        c: FixedU16(be32(d, p + 12)),
        d: FixedU16(be32(d, p + 16)),
        v: Fixed2_30(be32(d, p + 20) as i32),
        x: FixedU16(be32(d, p + 24)),
        y: FixedU16(be32(d, p + 28)),
        w: Fixed2_30(be32(d, p + 32) as i32),
    }
}

pub fn read_matrix(data: &[u8], pos: &mut u64) -> (r: Result<Matrix, Error>)
    ensures
        match r {
            Ok(m) => fits(data@, *old(pos) as int, 36) && m == spec_matrix_at(
                data@,
                *old(pos) as int,
            ) && *final(pos) == *old(pos) + 36,
            Err(e) => !fits(data@, *old(pos) as int, 36) && e == Error::Io,
        },
{
    if *pos > data.len() as u64 || data.len() as u64 - *pos < 36 {
        return Err(Error::Io);
    }
    let a = FixedU16::from_raw(read_u32(data, pos)?);
    let b = FixedU16::from_raw(read_u32(data, pos)?);
    let u = Fixed2_30::from_raw(read_u32(data, pos)? as i32);
    let c = FixedU16::from_raw(read_u32(data, pos)?);
    let d = FixedU16::from_raw(read_u32(data, pos)?);
    let v = Fixed2_30::from_raw(read_u32(data, pos)? as i32);
    let x = FixedU16::from_raw(read_u32(data, pos)?);
    let y = FixedU16::from_raw(read_u32(data, pos)?);
    let w = Fixed2_30::from_raw(read_u32(data, pos)? as i32);
    Ok(Matrix { a, b, u, c, d, v, x, y, w })
}

/// The three letters of an ISO 639-2 language code packed as 5-bit values
/// offset from 0x60, as UTF-8 bytes.
pub open spec fn spec_language_bytes(code: u16) -> Seq<u8> {
    seq![(code / 0x400 % 0x20 + 0x60) as u8, (code / 0x20 % 0x20 + 0x60) as u8, (code % 0x20 + 0x60) as u8]
}

/// `String::from_utf8`: the bytes as a string when they are valid UTF-8.
#[verifier::external_body]
pub(crate) fn string_from_utf8(bytes: Vec<u8>) -> (r: Option<String>)
    ensures
        r is Some <==> valid_utf8(bytes@),
        r matches Some(s) ==> s@ == decode_utf8(bytes@),
{
    String::from_utf8(bytes).ok()
}

proof fn lemma_ascii3(a: u8, b: u8, c: u8)
    requires
        a < 0x80,
        b < 0x80,
        c < 0x80,
    ensures
        valid_utf8(seq![a, b, c]),
{
    let s = seq![a, b, c];
    let s1 = s.subrange(1, 3);
    let s2 = s1.subrange(1, 2);
    let s3 = s2.subrange(1, 1);
    assert(s1 =~= seq![b, c]);
    assert(s2 =~= seq![c]);
    assert(s3 =~= Seq::<u8>::empty());
    assert(valid_utf8(s3));
    assert(valid_utf8(s2));
    assert(valid_utf8(s1));
    assert(valid_utf8(s));
}

/// The language a packed ISO 639-2 code names, such as `und` or `eng`.
pub fn language_string(language: u16) -> (r: String)
    ensures
        valid_utf8(spec_language_bytes(language)),
        r@ == decode_utf8(spec_language_bytes(language)),
{
    let c0 = (language / 0x400 % 0x20 + 0x60) as u8;
    let c1 = (language / 0x20 % 0x20 + 0x60) as u8;
    let c2 = (language % 0x20 + 0x60) as u8;
    let mut bytes: Vec<u8> = Vec::new();
    bytes.push(c0);
    bytes.push(c1);
    bytes.push(c2);
    proof {
        lemma_ascii3(c0, c1, c2);
        assert(bytes@ =~= spec_language_bytes(language));
    }
    match string_from_utf8(bytes) {
        Some(s) => s,
        None => String::new(),
    }
}

} // verus!
