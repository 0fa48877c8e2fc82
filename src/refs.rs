//! Allocation of indirect object references.

use vstd::prelude::*;

verus! {

/// The number of an indirect object; valid numbers are positive.
pub type RefId = i32;

/// Hands out the reference held by the allocator and moves the allocator to
/// the next number.
pub fn bump(alloc: &mut RefId) -> (prev: RefId)
    requires
        0 < *old(alloc) < RefId::MAX,
    ensures
        prev == *old(alloc),
        *final(alloc) == *old(alloc) + 1,
{
    let prev = *alloc;
    *alloc = prev + 1;
    prev
}

} // verus!
