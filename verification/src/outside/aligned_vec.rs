//! `rkyv::util::AlignedVec`, a growable byte buffer with aligned memory.
use rkyv::util::AlignedVec;
use vstd::prelude::*;

verus! {

/// `rkyv::util::AlignedVec`, known only by what it holds.
#[verifier::external_type_specification]
#[verifier::external_body]
pub struct ExAlignedVec<const ALIGNMENT: usize>(rkyv::util::AlignedVec<ALIGNMENT>);

/// The bytes an `AlignedVec` holds, first to last.
pub uninterp spec fn aligned_contents(vec: AlignedVec) -> Seq<u8>;

/// The largest length an `AlignedVec` of the default alignment, 16, can have:
/// its `MAX_CAPACITY`.
pub open spec fn aligned_max() -> nat {
    (isize::MAX - 15) as nat
}

/// `bytes` cut, or filled up with `value`, to the length `len`.
pub open spec fn resized(bytes: Seq<u8>, len: nat, value: u8) -> Seq<u8> {
    if len <= bytes.len() {
        bytes.take(len as int)
    } else {
        bytes + Seq::new((len - bytes.len()) as nat, |i: int| value)
    }
}

/// `AlignedVec::new`: the vector it makes holds nothing.
#[verifier::external_body]
pub(crate) fn aligned_new() -> (vec: AlignedVec)
    ensures
        aligned_contents(vec) == Seq::<u8>::empty(),
{
    AlignedVec::new()
}

/// `AlignedVec::clear`: afterwards the vector holds nothing.
#[verifier::external_body]
pub(crate) fn aligned_clear(vec: &mut AlignedVec)
    ensures
        aligned_contents(*final(vec)) == Seq::<u8>::empty(),
{
    vec.clear()
}

/// `AlignedVec::len`: the number of bytes held, which never exceeds the
/// vector's `MAX_CAPACITY`.
#[verifier::external_body]
pub(crate) fn aligned_len(vec: &AlignedVec) -> (len: usize)
    ensures
        len == aligned_contents(*vec).len(),
        len <= aligned_max(),
{
    vec.len()
}

/// `AlignedVec::as_slice`: the bytes held.
#[verifier::external_body]
pub(crate) fn aligned_as_slice(vec: &AlignedVec) -> (slice: &[u8])
    ensures
        slice@ == aligned_contents(*vec),
{
    vec.as_slice()
}

/// `AlignedVec::as_mut_slice`: the bytes held, open to writing; what is
/// written through the slice is what the vector then holds.
#[verifier::external_body]
pub(crate) fn aligned_as_mut_slice(vec: &mut AlignedVec) -> (slice: &mut [u8])
    ensures
        slice@ == aligned_contents(*old(vec)),
        aligned_contents(*final(vec)) == final(slice)@,
{
    vec.as_mut_slice()
}

/// `AlignedVec::reserve_exact`: makes room and leaves the bytes alone. It
/// panics where the room would exceed `MAX_CAPACITY`.
#[verifier::external_body]
pub(crate) fn aligned_reserve_exact(vec: &mut AlignedVec, additional: usize)
    requires
        aligned_contents(*old(vec)).len() + additional <= aligned_max(),
    ensures
        aligned_contents(*final(vec)) == aligned_contents(*old(vec)),
{
    vec.reserve_exact(additional)
}

/// `AlignedVec::resize`: cuts the vector to `new_len` bytes or fills it up
/// with `value`. It panics where `new_len` exceeds `MAX_CAPACITY`.
#[verifier::external_body]
pub(crate) fn aligned_resize(vec: &mut AlignedVec, new_len: usize, value: u8)
    requires
        new_len <= aligned_max(),
    ensures
        aligned_contents(*final(vec)) == resized(
            aligned_contents(*old(vec)),
            new_len as nat,
            value,
        ),
{
    vec.resize(new_len, value)
}

/// `AlignedVec::extend_from_slice`: appends the bytes in order. It panics
/// where the vector would grow beyond `MAX_CAPACITY`.
#[verifier::external_body]
pub(crate) fn aligned_extend_from_slice(vec: &mut AlignedVec, other: &[u8])
    requires
        aligned_contents(*old(vec)).len() + other@.len() <= aligned_max(),
    ensures
        aligned_contents(*final(vec)) == aligned_contents(*old(vec)) + other@,
{
    vec.extend_from_slice(other)
}

} // verus!
