//! Four-character codes naming MP4 boxes, brands and handlers.
use vstd::prelude::*;
use vstd::utf8::valid_utf8;
use vstd::string::StringSliceAdditionalSpecFns;

verus! {

/// Why a byte slice is not a four-character code.
#[derive(Debug, Clone, Copy, PartialEq, Eq, Structural)]
pub enum Error {
    /// The slice does not hold exactly four bytes.
    InvalidLength,
}

pub type Result<T> = core::result::Result<T, Error>;

/// Four bytes that name something, most often an MP4 box.
#[derive(Debug, Clone, Copy)]
pub struct FourCC(pub [u8; 4]);

impl PartialEq for FourCC {
    fn eq(&self, other: &Self) -> (r: bool) {
        let r = self.0[0] == other.0[0] && self.0[1] == other.0[1] && self.0[2] == other.0[2]
            && self.0[3] == other.0[3];
        proof {
            if r {
                assert(self.0@ =~= other.0@);
            }
        }
        r
    }
}

impl vstd::std_specs::cmp::PartialEqSpecImpl for FourCC {
    open spec fn obeys_eq_spec() -> bool {
        true
    }

    open spec fn eq_spec(&self, other: &Self) -> bool {
        self.0@ == other.0@
    }
}

impl Eq for FourCC {}

/// The big-endian number four bytes spell.
pub open spec fn spec_code(b: Seq<u8>) -> u32 {
    (b[0] * 0x100_0000 + b[1] * 0x1_0000 + b[2] * 0x100 + b[3]) as u32
}

/// The code whose big-endian number is `v`.
pub open spec fn spec_from_u32(v: u32) -> FourCC {
    FourCC([(v / 0x100_0000) as u8, (v / 0x1_0000 % 0x100) as u8, (v / 0x100 % 0x100) as u8, (v % 0x100) as u8])
}

/// The code made of the four bytes of `d` at `p`.
pub open spec fn spec_fourcc_at(d: Seq<u8>, p: int) -> FourCC {
    FourCC([d[p], d[p + 1], d[p + 2], d[p + 3]])
}

/// `std::str::from_utf8`: the bytes as a string when they are valid UTF-8.
#[verifier::external_body]
fn str_from_utf8(bytes: &[u8]) -> (r: Option<&str>)
    ensures
        r is Some <==> valid_utf8(bytes@),
        r matches Some(s) ==> s.spec_bytes() == bytes@,
{
    core::str::from_utf8(bytes).ok()
}

impl FourCC {
    /// The four bytes, in order.
    pub open spec fn bytes(self) -> Seq<u8> {
        self.0@
    }

    /// The code as a big-endian number, how MP4 headers store it.
    pub open spec fn spec_value(self) -> u32 {
        spec_code(self.0@)
    }

    /// The code as text, or `"????"` when its bytes are not UTF-8.
    pub fn as_str(&self) -> (r: &str)
        ensures
            valid_utf8(self.bytes()) ==> r.spec_bytes() == self.bytes(),
            !valid_utf8(self.bytes()) ==> r@ == "????"@,
    {
        match str_from_utf8(self.0.as_slice()) {
            Some(s) => s,
            None => "????",
        }
    }

    /// The code made of the given four bytes.
    pub fn from(value: [u8; 4]) -> (r: Self)
        ensures
            r.bytes() == value@,
    {
        let r = FourCC([value[0], value[1], value[2], value[3]]);
        assert(r.bytes() =~= value@);
        r
    }

    /// The code whose big-endian number is `value`.
    pub fn from_u32(value: u32) -> (r: Self)
        ensures
            r == spec_from_u32(value),
            r.spec_value() == value,
    {
        let r = FourCC([(value / 0x100_0000) as u8, (value / 0x1_0000 % 0x100) as u8, (value / 0x100 % 0x100) as u8, (value % 0x100) as u8]);
        r
    }

    /// The code as a big-endian number.
    pub fn value(&self) -> (r: u32)
        ensures
            r == self.spec_value(),
    {
        (self.0[0] as u32) * 0x100_0000 + (self.0[1] as u32) * 0x1_0000 + (self.0[2] as u32) * 0x100 + (self.0[3] as u32)
    }

    /// The code made of a slice's bytes, which must be exactly four.
    pub fn try_from_slice(value: &[u8]) -> (r: Result<Self>)
        ensures
            value@.len() == 4 ==> (r matches Ok(c) && c.bytes() == value@),
            value@.len() != 4 ==> r == Err::<FourCC, Error>(Error::InvalidLength),
    {
        if value.len() != 4 {
            return Err(Error::InvalidLength);
        }
        Ok(FourCC::from([value[0], value[1], value[2], value[3]]))
    }
}

/// A code read as its big-endian number and made back from it is the same
/// code; the other way round, `FourCC::from_u32` keeps the number.
pub proof fn law_value_round_trip(c: FourCC)
    ensures
        spec_from_u32(c.spec_value()).bytes() == c.bytes(),
{
    let b0 = c.0@[0];
    let b1 = c.0@[1];
    let b2 = c.0@[2];
    let b3 = c.0@[3];
    let v = c.spec_value();
    assert(v == ((b0 as u32) * 0x100_0000 + (b1 as u32) * 0x1_0000 + (b2 as u32) * 0x100 + (b3 as u32)));
    assert((v / 0x100_0000) as u8 == b0 && (v / 0x1_0000 % 0x100) as u8 == b1 && (v / 0x100 % 0x100) as u8 == b2
        && (v % 0x100) as u8 == b3) by (bit_vector)
        requires
            v == ((b0 as u32) * 0x100_0000 + (b1 as u32) * 0x1_0000 + (b2 as u32) * 0x100 + (b3 as u32)),
    ;
    assert(spec_from_u32(v).bytes() =~= c.bytes());
}

} // verus!
