//! The fixed-capacity buffers of the engine: key paths and responses.
//!
//! Both are `arrayvec::ArrayVec` values. The verifier does not look inside
//! that type, so what a buffer holds is given a name here, and each method
//! of the outside crate that the engine calls is wrapped in a function whose
//! contract is taken on trust from the crate's source.

use arrayvec::ArrayVec;
use vstd::prelude::*;

verus! {

/// `arrayvec::ArrayVec`, a vector stored inline with a capacity fixed by its
/// type. Opaque to the verifier.
#[verifier::external_type_specification]
#[verifier::external_body]
#[verifier::reject_recursive_types(T)]
pub struct ExArrayVec<T, const CAP: usize>(ArrayVec<T, CAP>);

/// Most segments a key path can hold.
pub const PATH_CAPACITY: usize = 10;

/// Most bytes a response can hold.
pub const RESPONSE_CAPACITY: usize = 128;

/// The segments that a key path holds, first to last.
pub uninterp spec fn path_segments(path: ArrayVec<u32, 10>) -> Seq<u32>;

/// The bytes that a response buffer holds, first to last.
pub uninterp spec fn response_bytes(buffer: ArrayVec<u8, 128>) -> Seq<u8>;

/// `ArrayVec::new`: the new vector holds nothing.
#[verifier::external_body]
pub(crate) fn new_path() -> (path: ArrayVec<u32, 10>)
    ensures
        path_segments(path) == Seq::<u32>::empty(),
{
    ArrayVec::new()
}

/// `ArrayVec::try_push`: appends `segment` when fewer than ten segments are
/// held and reports `true`; otherwise leaves the path as it was and reports
/// `false`.
#[verifier::external_body]
pub(crate) fn push_segment(path: &mut ArrayVec<u32, 10>, segment: u32) -> (pushed: bool)
    ensures
        pushed <==> path_segments(*old(path)).len() < PATH_CAPACITY,
        pushed ==> path_segments(*final(path)) == path_segments(*old(path)).push(segment),
        !pushed ==> path_segments(*final(path)) == path_segments(*old(path)),
{
    path.try_push(segment).is_ok()
}

/// `ArrayVec::new`: the new buffer holds nothing.
#[verifier::external_body]
pub(crate) fn new_response() -> (buffer: ArrayVec<u8, 128>)
    ensures
        response_bytes(buffer) == Seq::<u8>::empty(),
{
    ArrayVec::new()
}

/// `ArrayVec::try_push`: appends `byte` when fewer than 128 bytes are held
/// and reports `true`; otherwise leaves the buffer as it was and reports
/// `false`.
#[verifier::external_body]
pub(crate) fn push_byte(buffer: &mut ArrayVec<u8, 128>, byte: u8) -> (pushed: bool)
    ensures
        pushed <==> response_bytes(*old(buffer)).len() < RESPONSE_CAPACITY,
        pushed ==> response_bytes(*final(buffer)) == response_bytes(*old(buffer)).push(byte),
        !pushed ==> response_bytes(*final(buffer)) == response_bytes(*old(buffer)),
{
    buffer.try_push(byte).is_ok()
}

/// `ArrayVec::try_extend_from_slice`: appends all of `bytes` when they fit
/// in what is left of the 128 bytes and reports `true`; otherwise leaves the
/// buffer as it was and reports `false`.
#[verifier::external_body]
pub(crate) fn extend_bytes(buffer: &mut ArrayVec<u8, 128>, bytes: &[u8]) -> (extended: bool)
    ensures
        extended <==> response_bytes(*old(buffer)).len() + bytes@.len() <= RESPONSE_CAPACITY,
        extended ==> response_bytes(*final(buffer)) == response_bytes(*old(buffer)) + bytes@,
        !extended ==> response_bytes(*final(buffer)) == response_bytes(*old(buffer)),
{
    buffer.try_extend_from_slice(bytes).is_ok()
}

/// `ArrayVec::as_slice`: the held bytes as a slice, never more than 128.
#[verifier::external_body]
pub(crate) fn response_slice(buffer: &ArrayVec<u8, 128>) -> (bytes: &[u8])
    ensures
        bytes@ == response_bytes(*buffer),
        bytes@.len() <= RESPONSE_CAPACITY,
{
    buffer.as_slice()
}

} // verus!
