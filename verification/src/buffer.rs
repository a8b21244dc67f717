//! Byte buffers of the `bytes` crate, which hold the keys and payloads of
//! definitions.
use vstd::prelude::*;

verus! {

#[verifier::external_type_specification]
#[verifier::external_body]
pub struct ExBytes(bytes::Bytes);

#[verifier::external_type_specification]
#[verifier::external_body]
pub struct ExBytesMut(bytes::BytesMut);

/// The bytes that a buffer holds, in their order.
pub uninterp spec fn buffer_bytes(b: bytes::Bytes) -> Seq<u8>;

/// The bytes that a buffer which can still grow holds, in their order.
pub uninterp spec fn growing_bytes(b: bytes::BytesMut) -> Seq<u8>;

/// `bytes::Bytes::new`: a buffer that holds nothing.
#[verifier::external_body]
pub(crate) fn buffer_new() -> (r: bytes::Bytes)
    ensures
        buffer_bytes(r) == Seq::<u8>::empty(),
{
    bytes::Bytes::new()
}

/// `From<Vec<u8>>` of `bytes::Bytes`: a buffer that holds the bytes of the
/// vector.
#[verifier::external_body]
pub(crate) fn buffer_of(v: Vec<u8>) -> (r: bytes::Bytes)
    ensures
        buffer_bytes(r) == v@,
{
    bytes::Bytes::from(v)
}

/// `AsRef<[u8]>` of `bytes::Bytes`: the bytes that the buffer holds.
#[verifier::external_body]
pub(crate) fn buffer_slice(b: &bytes::Bytes) -> (r: &[u8])
    ensures
        r@ == buffer_bytes(*b),
{
    b.as_ref()
}

/// `From<&[u8]>` of `bytes::BytesMut`: a buffer that holds a copy of the
/// bytes and can grow.
#[verifier::external_body]
pub(crate) fn growing_of(v: &[u8]) -> (r: bytes::BytesMut)
    ensures
        growing_bytes(r) == v@,
{
    bytes::BytesMut::from(v)
}

/// `bytes::BufMut::put_u8` on `bytes::BytesMut`: the byte goes behind the
/// bytes that the buffer holds. The buffer makes room as it needs it; the
/// crate stops the program only where the new length would overflow, and
/// no buffer is as long as that.
#[verifier::external_body]
pub(crate) fn growing_put(b: &mut bytes::BytesMut, n: u8)
    ensures
        growing_bytes(*final(b)) == growing_bytes(*old(b)).push(n),
{
    bytes::BufMut::put_u8(b, n)
}

/// `bytes::BytesMut::freeze`: a buffer that holds the same bytes and grows
/// no more.
#[verifier::external_body]
pub(crate) fn growing_freeze(b: bytes::BytesMut) -> (r: bytes::Bytes)
    ensures
        buffer_bytes(r) == growing_bytes(b),
{
    b.freeze()
}

} // verus!
