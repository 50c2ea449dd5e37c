//! Byte buffers: the payload type of the engine and the trusted view of it.

use bytes::Bytes;
use vstd::prelude::*;
use vstd::slice::slice_subrange;

verus! {

/// `bytes::Bytes`, a shared buffer of bytes. Nothing of its inside is
/// known here; what it holds is spoken of through [`contents`].
#[verifier::external_type_specification]
#[verifier::external_body]
pub struct ExBytes(bytes::Bytes);

/// The bytes that a buffer holds, in order: what `Bytes` hands out as a
/// slice.
pub uninterp spec fn contents(b: Bytes) -> Seq<u8>;

/// `Bytes::len`: the number of bytes that the buffer holds.
pub assume_specification[ Bytes::len ](b: &Bytes) -> (n: usize)
    ensures
        n == contents(*b).len(),
;

/// `Bytes::copy_from_slice`: a new buffer that holds a copy of `data`.
pub assume_specification[ Bytes::copy_from_slice ](data: &[u8]) -> (b: Bytes)
    ensures
        contents(b) == data@,
;

/// `AsRef<[u8]>::as_ref` on `Bytes`: the bytes that the buffer holds, as a
/// slice, not copied.
#[verifier::external_body]
pub(crate) fn as_slice(b: &Bytes) -> (s: &[u8])
    ensures
        s@ == contents(*b),
{
    b.as_ref()
}

/// A new buffer that holds a copy of the bytes of `b` from `start`
/// (inclusive) to `end` (exclusive).
pub fn copy_range(b: &Bytes, start: usize, end: usize) -> (r: Bytes)
    requires
        start <= end <= contents(*b).len(),
    ensures
        contents(r) == contents(*b).subrange(start as int, end as int),
{
    Bytes::copy_from_slice(slice_subrange(as_slice(b), start, end))
}

} // verus!
