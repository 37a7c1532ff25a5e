use vstd::prelude::*;

verus! {

/// The growable byte buffer of the `bytes` crate. Its inside is hidden from
/// the verifier; [`buffer_bytes`] names what it holds.
#[verifier::external_type_specification]
#[verifier::external_body]
pub struct ExBytesMut(bytes::BytesMut);

/// The bytes that a buffer holds, first to last.
pub uninterp spec fn buffer_bytes(buf: bytes::BytesMut) -> Seq<u8>;

/// The two bytes of a sixteen-bit number, most significant first.
pub open spec fn be_bytes(n: u16) -> Seq<u8> {
    seq![(n / 256) as u8, (n % 256) as u8]
}

/// `BytesMut::new`: a buffer that holds nothing. Believed, not proved.
#[verifier::external_body]
pub(crate) fn buffer_new() -> (buf: bytes::BytesMut)
    ensures
        buffer_bytes(buf) == Seq::<u8>::empty(),
{
    bytes::BytesMut::new()
}

/// `BufMut::put_u8` on a `BytesMut`: the byte is appended and the bytes
/// before it stay. Believed, not proved.
#[verifier::external_body]
pub(crate) fn buffer_put_u8(buf: &mut bytes::BytesMut, byte: u8)
    ensures
        buffer_bytes(*final(buf)) == buffer_bytes(*old(buf)).push(byte),
{
    bytes::BufMut::put_u8(buf, byte)
}

/// `BufMut::put_u16` on a `BytesMut`: the number is appended in big-endian
/// order, two bytes, and the bytes before it stay. Believed, not proved.
#[verifier::external_body]
pub(crate) fn buffer_put_u16(buf: &mut bytes::BytesMut, n: u16)
    ensures
        buffer_bytes(*final(buf)) == buffer_bytes(*old(buf)) + be_bytes(n),
{
    bytes::BufMut::put_u16(buf, n)
}

/// `BufMut::put_slice` on a `BytesMut`: the slice is appended whole and the
/// bytes before it stay. Believed, not proved.
#[verifier::external_body]
pub(crate) fn buffer_put_slice(buf: &mut bytes::BytesMut, src: &[u8])
    ensures
        buffer_bytes(*final(buf)) == buffer_bytes(*old(buf)) + src@,
{
    bytes::BufMut::put_slice(buf, src)
}

} // verus!
