use vstd::prelude::*;
use bytes::Buf;
use bytes::BufMut;
use bytes::BytesMut;

verus! {

/// Declares `bytes::BytesMut`, the growable byte buffer that frames are read
/// from and written to.
#[verifier::external_type_specification]
#[verifier::external_body]
pub struct ExBytesMut(BytesMut);

/// The bytes that a buffer currently holds, front first.
pub uninterp spec fn bytes_view(b: BytesMut) -> Seq<u8>;

/// Relies on `BytesMut::len`: the number of bytes held.
#[verifier::external_body]
pub(crate) fn buf_len(b: &BytesMut) -> (r: usize)
    ensures
        r == bytes_view(*b).len(),
{
    b.len()
}

/// Relies on `BytesMut`'s `Deref<Target = [u8]>`: indexing reads the held bytes.
#[verifier::external_body]
pub(crate) fn buf_byte(b: &BytesMut, i: usize) -> (r: u8)
    requires
        i < bytes_view(*b).len(),
    ensures
        r == bytes_view(*b)[i as int],
{
    b[i]
}

/// Relies on `<BytesMut as Buf>::advance`: drops `cnt` bytes from the front
/// (it panics when `cnt` exceeds the length).
#[verifier::external_body]
pub(crate) fn buf_advance(b: &mut BytesMut, cnt: usize)
    requires
        cnt <= bytes_view(*old(b)).len(),
    ensures
        bytes_view(*final(b)) == bytes_view(*old(b)).subrange(cnt as int, bytes_view(*old(b)).len() as int),
{
    b.advance(cnt)
}

/// Relies on `BytesMut::split_to`: hands out the first `at` bytes and keeps the
/// rest (it panics when `at` exceeds the length).
#[verifier::external_body]
pub(crate) fn buf_split_to(b: &mut BytesMut, at: usize) -> (r: BytesMut)
    requires
        at <= bytes_view(*old(b)).len(),
    ensures
        bytes_view(r) == bytes_view(*old(b)).subrange(0, at as int),
        bytes_view(*final(b)) == bytes_view(*old(b)).subrange(at as int, bytes_view(*old(b)).len() as int),
{
    b.split_to(at)
}

/// Relies on `<BytesMut as BufMut>::put_u8`: appends one byte, growing the
/// buffer as needed.
#[verifier::external_body]
pub(crate) fn buf_put_u8(b: &mut BytesMut, n: u8)
    ensures
        bytes_view(*final(b)) == bytes_view(*old(b)).push(n),
{
    b.put_u8(n)
}

} // verus!
