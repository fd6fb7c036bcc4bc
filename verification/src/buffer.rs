//! The byte buffer that a connection fills and the decoder drains.
use vstd::prelude::*;
use bytes::{Buf, BytesMut};

verus! {

/// Trusted declaration of `bytes::BytesMut`, a growable buffer of bytes.
#[verifier::external_type_specification]
#[verifier::external_body]
pub struct ExBytesMut(bytes::BytesMut);

/// The bytes that a buffer holds, from its start to its end.
pub uninterp spec fn buffer_bytes(buf: BytesMut) -> Seq<u8>;

/// Trusted wrapper around `BytesMut::as_ref`: the bytes of the buffer as a
/// slice.
#[verifier::external_body]
pub(crate) fn buffer_slice(buf: &BytesMut) -> (bytes: &[u8])
    ensures
        bytes@ == buffer_bytes(*buf),
{
    buf.as_ref()
}

/// Trusted wrapper around `Buf::advance` of `BytesMut`: the first `count` bytes
/// leave the buffer, the others stay as they are. The outside function panics
/// where `count` is more than the buffer holds, so that is required of the
/// caller.
#[verifier::external_body]
pub(crate) fn buffer_advance(buf: &mut BytesMut, count: usize)
    requires
        count <= buffer_bytes(*old(buf)).len(),
    ensures
        buffer_bytes(*final(buf)) == buffer_bytes(*old(buf)).skip(count as int),
{
    buf.advance(count)
}

} // verus!
