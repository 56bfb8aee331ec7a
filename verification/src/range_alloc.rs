//! Trusted interface to the external range allocator.
//!
//! The library carves sub-ranges out of one large heap with the
//! `offset_allocator` crate, a free-list offset allocator over a contiguous
//! integer address space. Verus sees that crate only through the opaque
//! wrapper types and contracts in this module; what they state was read off
//! the crate's source: `allocate` hands out a range inside `[0, size)` that
//! does not overlap any range currently handed out, and `free` returns a
//! live range to the pool.

use vstd::prelude::*;

verus! {

/// A free-list sub-allocator over the integer address space `[0, size)`.
///
/// Holds an `offset_allocator::Allocator`, which Verus does not look into;
/// its behaviour is assumed through the contracts of the methods below and
/// described by [`live_ranges`] and [`total_size`].
#[verifier::external_body]
pub struct RangeAllocator {
    inner: offset_allocator::Allocator,
}

/// A handle to one live range of a [`RangeAllocator`], needed to free it.
///
/// Holds an `offset_allocator::Allocation`, which Verus does not look into.
#[verifier::external_body]
pub struct RangeHandle {
    inner: offset_allocator::Allocation,
}

/// The ranges currently handed out by the range allocator, as a map from
/// the range's start to its length.
pub uninterp spec fn live_ranges(a: RangeAllocator) -> Map<u32, u32>;

/// The size of the address space `[0, size)` the range allocator was
/// created over.
pub uninterp spec fn total_size(a: RangeAllocator) -> u32;

/// Whether `h` is a handle to a currently live range of `a`: returned by an
/// `allocate` on `a` and not freed since. `free` accepts only such handles.
pub uninterp spec fn owns(a: RangeAllocator, h: RangeHandle) -> bool;

/// The start of the range a handle was minted for.
pub uninterp spec fn handle_offset(h: RangeHandle) -> u32;

/// Two half-open integer ranges `[o1, o1 + s1)` and `[o2, o2 + s2)` do not
/// overlap.
pub open spec fn ranges_disjoint(o1: int, s1: int, o2: int, s2: int) -> bool {
    o1 + s1 <= o2 || o2 + s2 <= o1
}

impl RangeAllocator {
    /// Relies on `offset_allocator::Allocator::new`: a fresh allocator over
    /// `[0, size)` with no live ranges.
    #[verifier::external_body]
    pub fn new(size: u32) -> (r: RangeAllocator)
        ensures
            total_size(r) == size,
            forall|o: u32| !live_ranges(r).contains_key(o),
    {
        RangeAllocator { inner: offset_allocator::Allocator::new(size) }
    }

    /// Relies on `offset_allocator::Allocator::allocate`: on success the
    /// returned range lies inside the address space, does not overlap any
    /// live range, and becomes live itself; on failure nothing changes.
    #[verifier::external_body]
    pub fn allocate(&mut self, size: u32) -> (r: Option<(u32, RangeHandle)>)
        requires
            size >= 1,
        ensures
            total_size(*final(self)) == total_size(*old(self)),
            match r {
                Some((offset, handle)) => {
                    &&& offset + size <= total_size(*old(self))
                    &&& forall|o: u32| #[trigger] live_ranges(*old(self)).contains_key(o)
                        ==> ranges_disjoint(
                            offset as int, size as int, o as int,
                            live_ranges(*old(self))[o] as int)
                    &&& live_ranges(*final(self)) == live_ranges(*old(self)).insert(offset, size)
                    &&& owns(*final(self), handle)
                    &&& handle_offset(handle) == offset
                },
                None => live_ranges(*final(self)) == live_ranges(*old(self)),
            },
    {
        self.inner.allocate(size).map(|allocation| (allocation.offset, RangeHandle { inner: allocation }))
    }

    /// Relies on `offset_allocator::Allocator::free`: freeing a live handle
    /// returns exactly its range to the pool.
    #[verifier::external_body]
    pub fn free(&mut self, h: RangeHandle)
        requires
            owns(*old(self), h),
        ensures
            total_size(*final(self)) == total_size(*old(self)),
            live_ranges(*final(self)) == live_ranges(*old(self)).remove(handle_offset(h)),
    {
        self.inner.free(h.inner)
    }
}

} // verus!
