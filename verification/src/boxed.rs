//! Single-ownership container: one value stored through an allocator
//! instance.

use vstd::prelude::*;

use crate::allocator::{Alloc, Block};
use crate::layout::Layout;
use crate::unique::Unique;

verus! {

/// A single-owner container holding one `T` allocated through an `A`.
///
/// Destruction is explicit ([`Box::free`]): it runs the value's cleanup and
/// then releases the block through the same allocator instance that was used
/// at construction.
pub struct Box<T, A>
where
    A: Alloc,
{
    allocator: A,
    ptr: Unique<T>,
    value: T,
}

impl<T, A: Alloc> View for Box<T, A> {
    type V = T;

    closed spec fn view(&self) -> T {
        self.value
    }
}

impl<A, T> Box<T, A>
where
    A: Alloc,
{
    /// The held allocator's live blocks.
    pub closed spec fn blocks(&self) -> Map<int, Block> {
        self.allocator.blocks()
    }

    /// The held allocator instance.
    pub closed spec fn spec_allocator(&self) -> A {
        self.allocator
    }

    /// Address of the backing block (a sentinel for zero-sized `T`).
    pub closed spec fn spec_addr(&self) -> usize {
        self.ptr.spec_addr()
    }

    /// Internal invariant: for a `T` that occupies storage, the handle names
    /// a live allocator block sized and aligned for one `T`.
    pub closed spec fn wf(&self) -> bool {
        &&& self.allocator.inv()
        &&& self.ptr.wf()
        &&& vstd::layout::size_of::<T>() != 0 ==> {
            &&& self.allocator.blocks().dom().contains(self.ptr.spec_addr() as int)
            &&& self.allocator.blocks()[self.ptr.spec_addr() as int].size == vstd::layout::size_of::<
                T,
            >()
            &&& self.allocator.blocks()[self.ptr.spec_addr() as int].align
                == vstd::layout::align_of::<T>()
        }
    }

    /// Allocates storage sized and aligned for `value` through `allocator`
    /// (a sentinel, no-storage handle for zero-sized types) and moves `value`
    /// in.
    ///
    /// The allocator must have room: with no further fallback, exhaustion
    /// here is fatal, so that input is excluded rather than handled.
    pub fn new(value: T, allocator: A) -> (r: Box<T, A>)
        requires
            allocator.inv(),
            vstd::layout::size_of::<T>() != 0 ==> allocator.fits(Layout::spec_new::<T>()),
        ensures
            r.wf(),
            r@ == value,
            if vstd::layout::size_of::<T>() == 0 {
                &&& r.spec_allocator() == allocator
                &&& r.blocks() == allocator.blocks()
            } else {
                &&& !allocator.blocks().dom().contains(r.spec_addr() as int)
                &&& r.blocks() == allocator.blocks().insert(
                    r.spec_addr() as int,
                    r.blocks()[r.spec_addr() as int],
                )
                &&& r.blocks()[r.spec_addr() as int].size == vstd::layout::size_of::<T>()
                &&& r.blocks()[r.spec_addr() as int].align == vstd::layout::align_of::<T>()
            },
    {
        let mut allocator = allocator;
        let ptr = Unique::<T>::allocate(&mut allocator);
        Box { allocator, ptr, value }
    }

    /// Read access to the stored value.
    pub fn get(&self) -> (r: &T)
        ensures
            *r == self@,
    {
        &self.value
    }

    /// Exclusive access to the stored value.
    pub fn get_mut(&mut self) -> (r: &mut T)
        requires
            old(self).wf(),
        ensures
            *r == old(self)@,
            final(self)@ == *final(r),
            final(self).wf(),
            final(self).blocks() == old(self).blocks(),
            final(self).spec_allocator() == old(self).spec_allocator(),
            final(self).spec_addr() == old(self).spec_addr(),
    {
        &mut self.value
    }

    /// Destroys the container: runs the value's cleanup, then releases the
    /// block through the held allocator, which is returned.
    pub fn free(self) -> (a: A)
        requires
            self.wf(),
        ensures
            a.inv(),
            if vstd::layout::size_of::<T>() == 0 {
                a == self.spec_allocator()
            } else {
                a.blocks() == self.blocks().remove(self.spec_addr() as int)
            },
    {
        let Box { mut allocator, ptr, value } = self;
        {
            // the value's own cleanup runs here, before the deallocation
            let _owned = value;
        }
        if core::mem::size_of::<T>() != 0 {
            let layout = Layout::new::<T>();
            allocator.deallocate(ptr.addr(), layout);
        }
        allocator
    }
}

} // verus!
