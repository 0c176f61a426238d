//! Audio accumulator: an append-only growable byte buffer that collects the
//! payload slices of accepted data frames in arrival order.  The buffer is
//! `bytes::BytesMut`, seen by the proofs through its contents
//! `audio_bytes_of`.

use vstd::prelude::*;
use bytes::BytesMut;

verus! {

#[verifier::external_type_specification]
#[verifier::external_body]
pub struct ExBytesMut(BytesMut);

/// The bytes a `BytesMut` buffer holds, in order.
pub uninterp spec fn audio_bytes_of(b: BytesMut) -> Seq<u8>;

/// Relies on `bytes::BytesMut::new`: the new buffer is empty.
#[verifier::external_body]
pub fn audio_buffer_new() -> (b: BytesMut)
    ensures
        audio_bytes_of(b) == Seq::<u8>::empty(),
{
    BytesMut::new()
}

/// Relies on `bytes::BytesMut::extend_from_slice`: the slice is appended at
/// the end of the buffer.
#[verifier::external_body]
pub fn audio_buffer_extend(b: &mut BytesMut, s: &[u8])
    requires
        audio_bytes_of(*old(b)).len() + s@.len() <= isize::MAX,
    ensures
        audio_bytes_of(*final(b)) == audio_bytes_of(*old(b)) + s@,
{
    b.extend_from_slice(s)
}

/// Relies on `bytes::BytesMut::len`: the number of bytes in the buffer.
#[verifier::external_body]
pub fn audio_buffer_len(b: &BytesMut) -> (n: usize)
    ensures
        n == audio_bytes_of(*b).len(),
{
    b.len()
}

} // verus!
