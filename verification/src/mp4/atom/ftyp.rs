//! `ftyp`: the file type box: the brand the file follows, and the others
//! it is compatible with.
use vstd::prelude::*;
use smallvec::SmallVec;
use crate::fourcc::{FourCC, spec_fourcc_at};
use crate::mp4::error::Error;
use crate::mp4::stream::{fits, be32, read_u8, read_u32};
use crate::mp4::atom::{box_end, spec_overflow, outcome};

verus! {

/// The compatible brands of a file type box, kept in a small vector that
/// holds up to four of them without a heap allocation.
#[verifier::external_body]
#[derive(Debug)]
pub struct Brands {
    list: SmallVec<[FourCC; 4]>,
}

/// The brands a brand list holds, in order.
pub uninterp spec fn brand_list(v: Brands) -> Seq<FourCC>;

/// `SmallVec::from_vec`: a brand list holding the items of `v`, in order.
#[verifier::external_body]
fn brands_from_vec(v: Vec<FourCC>) -> (r: Brands)
    ensures
        brand_list(r) == v@,
{
    Brands { list: SmallVec::from_vec(v) }
}

/// `SmallVec::as_slice`: the items of a brand list, in order.
#[verifier::external_body]
pub(crate) fn brands_as_slice(v: &Brands) -> (r: &[FourCC])
    ensures
        r@ == brand_list(*v),
{
    v.list.as_slice()
}

#[derive(Debug)]
pub struct Ftyp {
    pub major_brand: FourCC,
    pub minor_version: u32,
    pub compatible_brands: Brands,
}

/// How many compatible brands a box of `size` holds after its header and
/// the major brand and minor version.
pub open spec fn brand_count(size: u64) -> int {
    (size - 16) / 4
}

/// The `n` brands stored from `p` on.
pub open spec fn spec_brands(d: Seq<u8>, p: int, n: int) -> Seq<FourCC> {
    Seq::new(n as nat, |i: int| spec_fourcc_at(d, p + 4 * i))
}

pub open spec fn ftyp_res(d: Seq<u8>, p: int, size: u64) -> Result<(), Error> {
    if size < 16 || size % 4 != 0 {
        Err(Error::InvalidData("ftyp size too small or not aligned"))
    } else if !fits(d, p, 8 + 4 * brand_count(size)) {
        Err(Error::Io)
    } else if p - 8 + size > u64::MAX {
        Err(spec_overflow())
    } else {
        Ok(())
    }
}

pub open spec fn ftyp_rel(d: Seq<u8>, p: int, size: u64, x: Ftyp) -> bool {
    &&& x.major_brand == spec_fourcc_at(d, p)
    &&& x.minor_version == be32(d, p + 4)
    &&& brand_list(x.compatible_brands) == spec_brands(d, p + 8, brand_count(size))
}

/// Reads the four bytes of a code at the position.
fn read_fourcc(data: &[u8], pos: &mut u64) -> (r: Result<FourCC, Error>)
    ensures
        match r {
            Ok(c) => fits(data@, *old(pos) as int, 4) && c == spec_fourcc_at(data@, *old(pos) as int)
                && *final(pos) == *old(pos) + 4,
            Err(e) => !fits(data@, *old(pos) as int, 4) && e == Error::Io,
        },
{
    let b0 = read_u8(data, pos)?;
    let b1 = read_u8(data, pos)?;
    let b2 = read_u8(data, pos)?;
    let b3 = read_u8(data, pos)?;
    Ok(FourCC([b0, b1, b2, b3]))
}

impl Ftyp {
    /// Reads the box whose data starts at the position, and moves to its end.
    /// Its size must leave room for the header, the major brand and the minor
    /// version, and be a whole number of brands.
    pub fn read(data: &[u8], pos: &mut u64, size: u64) -> (r: Result<Self, Error>)
        requires
            *old(pos) >= 8,
        ensures
            outcome(r, ftyp_res(data@, *old(pos) as int, size), |x: Ftyp| ftyp_rel(data@, *old(pos) as int, size, x)),
            r is Ok ==> *final(pos) == *old(pos) - 8 + size,
    {
        let p0 = *pos;
        if size < 16 || size % 4 != 0 {
            return Err(Error::InvalidData("ftyp size too small or not aligned"));
        }
        let count = (size - 16) / 4;
        let ghost d = data@;
        let major_brand = match read_fourcc(data, pos) {
            Ok(c) => c,
            Err(e) => {
                return Err(e);
            },
        };
        let minor_version = match read_u32(data, pos) {
            Ok(v) => v,
            Err(e) => {
                return Err(e);
            },
        };
        let mut brands: Vec<FourCC> = Vec::new();
        let mut i: u64 = 0;
        while i < count
            invariant
                d == data@,
                p0 == *old(pos),
                count == brand_count(size),
                size >= 16,
                size % 4 == 0,
                i <= count,
                fits(d, p0 as int, 8 + 4 * i),
                *pos == p0 + 8 + 4 * i,
                brands@ == spec_brands(d, p0 + 8, i as int),
            decreases count - i,
        {
            let brand = match read_fourcc(data, pos) {
                Ok(c) => c,
                Err(e) => {
                    return Err(e);
                },
            };
            proof {
                assert(brands@.push(brand) =~= spec_brands(d, p0 + 8, i + 1));
            }
            brands.push(brand);
            i = i + 1;
        }
        let end = box_end(p0, size)?;
        *pos = end;
        Ok(Ftyp { major_brand, minor_version, compatible_brands: brands_from_vec(brands) })
    }
}

} // verus!
