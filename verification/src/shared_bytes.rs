//! The reference-counted byte buffer of the `bytes` crate, as NAL units and
//! samples carry their payload in it.
use vstd::prelude::*;

verus! {

#[verifier::external_type_specification]
#[verifier::external_body]
pub struct ExBytes(bytes::Bytes);

/// The bytes a `bytes::Bytes` buffer holds, in order.
pub uninterp spec fn bytes_view(b: bytes::Bytes) -> Seq<u8>;

/// `bytes::Bytes::copy_from_slice`: a new buffer holding a copy of `data`.
#[verifier::external_body]
pub(crate) fn bytes_copy_from_slice(data: &[u8]) -> (r: bytes::Bytes)
    ensures
        bytes_view(r) == data@,
{
    bytes::Bytes::copy_from_slice(data)
}

/// `impl From<Vec<u8>> for bytes::Bytes`: takes the vector's bytes over as they are.
#[verifier::external_body]
pub(crate) fn bytes_from_vec(data: Vec<u8>) -> (r: bytes::Bytes)
    ensures
        bytes_view(r) == data@,
{
    bytes::Bytes::from(data)
}

/// `bytes::Bytes::len`: the number of bytes held.
#[verifier::external_body]
pub(crate) fn bytes_len(b: &bytes::Bytes) -> (r: usize)
    ensures
        r == bytes_view(*b).len(),
{
    b.len()
}

/// `impl Deref for bytes::Bytes`: the held bytes as a slice.
#[verifier::external_body]
pub(crate) fn bytes_as_slice(b: &bytes::Bytes) -> (r: &[u8])
    ensures
        r@ == bytes_view(*b),
{
    b
}

/// `impl Clone for bytes::Bytes`: another handle on the same bytes.
#[verifier::external_body]
pub(crate) fn bytes_clone(b: &bytes::Bytes) -> (r: bytes::Bytes)
    ensures
        bytes_view(r) == bytes_view(*b),
{
    b.clone()
}

} // verus!
