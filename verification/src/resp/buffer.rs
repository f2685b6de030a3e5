//! The byte buffer that frames are read from and written to.
//!
//! The buffer is `bytes::BytesMut`. What it holds is named here, and the few
//! operations the codec needs are stated over that name; none of them is
//! proved, they are taken from the buffer's own source.

use vstd::prelude::*;
use bytes::{Buf, BufMut, BytesMut};

verus! {

/// `bytes::BytesMut`, taken as it is: nothing inside it is seen.
#[verifier::external_type_specification]
#[verifier::external_body]
pub struct ExBytesMut(BytesMut);

/// The bytes that the buffer holds, in order, from its front to its back.
pub uninterp spec fn buffered(buf: BytesMut) -> Seq<u8>;

/// `Deref::deref` of `BytesMut`: the held bytes as a slice, front first.
#[verifier::external_body]
pub(crate) fn buffer_bytes(buf: &BytesMut) -> (bytes: &[u8])
    ensures
        bytes@ == buffered(*buf),
{
    &buf[..]
}

/// `Buf::advance` of `BytesMut`: drops the first `count` held bytes and
/// keeps the rest. It panics when fewer are held, which `requires` rules out.
#[verifier::external_body]
pub(crate) fn buffer_advance(buf: &mut BytesMut, count: usize)
    requires
        count <= buffered(*old(buf)).len(),
    ensures
        buffered(*final(buf)) == buffered(*old(buf)).skip(count as int),
{
    buf.advance(count)
}

/// `BufMut::put_slice` of `BytesMut`: the held bytes, then those of `bytes`.
#[verifier::external_body]
pub(crate) fn buffer_put(buf: &mut BytesMut, bytes: &[u8])
    ensures
        buffered(*final(buf)) == buffered(*old(buf)) + bytes@,
{
    buf.put_slice(bytes)
}

} // verus!
