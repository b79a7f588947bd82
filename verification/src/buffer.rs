//! The 64-byte working buffer of the codec: a `heapless::Vec<u8, 64>`.
//! Nothing here is proved; the contracts state what `heapless` does to the
//! buffer's contents.

use vstd::prelude::*;

verus! {

/// Capacity in bytes of the working buffer.
pub const BUFFER_LEN: usize = 64;

#[verifier::external_type_specification]
#[verifier::external_body]
#[verifier::reject_recursive_types(T)]
pub struct ExHeaplessVec<T, const N: usize>(heapless::Vec<T, N>);

/// The bytes that a buffer holds, first to last.
pub uninterp spec fn buffer_contents(buffer: heapless::Vec<u8, 64>) -> Seq<u8>;

/// Calls `heapless::Vec::new`: the new buffer holds nothing.
#[verifier::external_body]
pub(crate) fn buffer_new() -> (buffer: heapless::Vec<u8, 64>)
    ensures
        buffer_contents(buffer) == Seq::<u8>::empty(),
{
    heapless::Vec::new()
}

/// Calls `heapless::Vec::extend_from_slice`: where the bytes fit into what is
/// left of the 64, they are appended in order; where they do not, the call
/// fails and the buffer stays as it was.
#[verifier::external_body]
pub(crate) fn buffer_extend(buffer: &mut heapless::Vec<u8, 64>, bytes: &[u8]) -> (fit: Result<
    (),
    (),
>)
    ensures
        fit is Ok <==> buffer_contents(*old(buffer)).len() + bytes@.len() <= 64,
        fit is Ok ==> buffer_contents(*final(buffer)) == buffer_contents(*old(buffer)) + bytes@,
        fit is Err ==> buffer_contents(*final(buffer)) == buffer_contents(*old(buffer)),
{
    buffer.extend_from_slice(bytes)
}

/// Calls `heapless::Vec::as_slice`: the slice is the buffer's contents.
#[verifier::external_body]
pub(crate) fn buffer_as_slice(buffer: &heapless::Vec<u8, 64>) -> (bytes: &[u8])
    ensures
        bytes@ == buffer_contents(*buffer),
{
    buffer.as_slice()
}

/// Calls `heapless::Vec::clear`: the buffer holds nothing afterwards.
#[verifier::external_body]
pub(crate) fn buffer_clear(buffer: &mut heapless::Vec<u8, 64>)
    ensures
        buffer_contents(*final(buffer)) == Seq::<u8>::empty(),
{
    buffer.clear()
}

} // verus!
