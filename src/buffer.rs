//! The fixed-capacity argument buffer, held in an `arrayvec::ArrayVec`.
use vstd::prelude::*;
use arrayvec::ArrayVec;
use crate::low_level::Argument;

verus! {

#[verifier::external_type_specification]
#[verifier::external_body]
#[verifier::reject_recursive_types(T)]
pub struct ExArrayVec<T, const CAP: usize>(ArrayVec<T, CAP>);

/// The most arguments that one command can carry.
pub const ARG_CAPACITY: usize = 10;

/// An argument buffer holding up to 10 arguments.
pub type ArgBuffer = ArrayVec<Argument, 10>;

/// The arguments that a buffer holds, in the order they were pushed.
pub uninterp spec fn buffer_items(b: ArgBuffer) -> Seq<Argument>;

/// Relies on `ArrayVec::new`: the new vector is empty.
#[verifier::external_body]
pub(crate) fn buffer_new() -> (r: ArgBuffer)
    ensures
        buffer_items(r) == Seq::<Argument>::empty(),
{
    ArrayVec::new()
}

/// Relies on `ArrayVec::len`: the number of items held, never above the
/// capacity.
#[verifier::external_body]
pub(crate) fn buffer_len(b: &ArgBuffer) -> (r: usize)
    ensures
        r == buffer_items(*b).len(),
        r <= ARG_CAPACITY,
{
    b.len()
}

/// Relies on `ArrayVec::try_push`: below capacity the item is appended and
/// `Ok` comes back; at capacity the vector is left as it was and the item
/// comes back in the error.
#[verifier::external_body]
pub(crate) fn buffer_try_push(b: &mut ArgBuffer, a: Argument) -> (r: bool)
    ensures
        buffer_items(*old(b)).len() < ARG_CAPACITY ==> r && buffer_items(*final(b)) == buffer_items(*old(b)).push(a),
        buffer_items(*old(b)).len() >= ARG_CAPACITY ==> !r && buffer_items(*final(b)) == buffer_items(*old(b)),
{
    b.try_push(a).is_ok()
}

/// Relies on `ArrayVec::as_slice`: the items held, in order.
#[verifier::external_body]
pub(crate) fn buffer_as_slice(b: &ArgBuffer) -> (r: &[Argument])
    ensures
        r@ == buffer_items(*b),
{
    b.as_slice()
}

} // verus!
