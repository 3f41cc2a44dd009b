//! Trusted interface to `heapless::Vec`, the fixed-capacity, non-allocating
//! vector that backs the DNS answer buffer. Only the two operations the
//! DNS builder needs are exposed, each with the contract the crate's source
//! shows.

use vstd::prelude::*;

verus! {

#[verifier::external_type_specification]
#[verifier::external_body]
#[verifier::reject_recursive_types(T)]
pub struct ExHeaplessVec<T, const N: usize>(heapless::Vec<T, N>);

/// The bytes an answer buffer currently holds.
pub uninterp spec fn hbytes(v: heapless::Vec<u8, 512>) -> Seq<u8>;

/// Relies on heapless::Vec::new: a fresh vector is empty.
#[verifier::external_body]
pub(crate) fn hvec_new() -> (r: heapless::Vec<u8, 512>)
    ensures
        hbytes(r) == Seq::<u8>::empty(),
{
    heapless::Vec::new()
}

/// Relies on heapless::Vec::extend_from_slice: appends the slice in order
/// when the result fits the fixed capacity; otherwise errs and modifies
/// nothing.
#[verifier::external_body]
pub(crate) fn hvec_extend(v: &mut heapless::Vec<u8, 512>, other: &[u8]) -> (r: Result<(), ()>)
    ensures
        hbytes(*old(v)).len() + other@.len() <= 512 ==> r is Ok && hbytes(*final(v)) == hbytes(
            *old(v),
        ) + other@,
        hbytes(*old(v)).len() + other@.len() > 512 ==> r is Err && hbytes(*final(v)) == hbytes(
            *old(v),
        ),
{
    v.extend_from_slice(other)
}

} // verus!
