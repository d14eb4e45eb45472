//! Trusted view of the caller-owned receive buffer.
//!
//! The receive buffer is a `bytes::BytesMut`: the caller appends inbound
//! bytes at its tail, the decoders peek at its contents without consuming,
//! and only once a complete unit has been decoded do they advance its head
//! by exactly the consumed byte count.  `buf_bytes` names the bytes the
//! buffer currently holds, from its logical head to its tail; every
//! contract about buffer state is stated over it.

use vstd::prelude::*;

verus! {

#[verifier::external_type_specification]
#[verifier::external_body]
pub struct ExBytesMut(bytes::BytesMut);

/// The bytes a receive buffer currently holds, head to tail.
pub uninterp spec fn buf_bytes(b: bytes::BytesMut) -> Seq<u8>;

/// Relies on bytes::BytesMut::len: the number of bytes the buffer holds.
#[verifier::external_body]
pub(crate) fn buf_len(b: &bytes::BytesMut) -> (r: usize)
    ensures
        r == buf_bytes(*b).len(),
{
    b.len()
}

/// Relies on bytes::BytesMut's Deref to `[u8]`: indexing yields the byte at
/// that offset from the buffer's head.
#[verifier::external_body]
pub(crate) fn buf_byte(b: &bytes::BytesMut, i: usize) -> (r: u8)
    requires
        i < buf_bytes(*b).len(),
    ensures
        r == buf_bytes(*b)[i as int],
{
    b[i]
}

/// Relies on bytes::Buf::advance for BytesMut: the first `cnt` bytes are
/// discarded and the buffer keeps the remaining suffix.  It panics when
/// `cnt` exceeds the bytes held, so that case is excluded here.
#[verifier::external_body]
pub(crate) fn buf_advance(b: &mut bytes::BytesMut, cnt: usize)
    requires
        cnt <= buf_bytes(*old(b)).len(),
    ensures
        buf_bytes(*final(b)) == buf_bytes(*old(b)).skip(cnt as int),
{
    bytes::Buf::advance(b, cnt)
}

} // verus!
