//! The owning-handle primitive: a non-null typed reference to one allocator
//! block, denoting exclusive logical ownership of the region.

use vstd::prelude::*;

use crate::allocator::Alloc;
use crate::layout::Layout;

verus! {

/// A non-null typed handle to an allocator block sized for one `T`.
///
/// The handle carries a type tag and is never implicitly duplicable. When `T`
/// occupies zero bytes the handle is a non-dereferenced sentinel that owns no
/// block.
pub struct Unique<T> {
    addr: usize,
    _marker: core::marker::PhantomData<T>,
}

impl<T> Unique<T> {
    /// The address the handle holds.
    pub closed spec fn spec_addr(self) -> usize {
        self.addr
    }

    /// The address the handle holds.
    pub fn addr(&self) -> (a: usize)
        ensures
            a == self.spec_addr(),
    {
        self.addr
    }

    /// A handle is well formed when its address is nonzero.
    pub open spec fn wf(self) -> bool {
        self.spec_addr() != 0
    }

    /// The sentinel handle used before any storage exists: a dangling,
    /// well-aligned, nonzero address that is never dereferenced.
    pub fn empty() -> (r: Unique<T>)
        ensures
            r.wf(),
            r.spec_addr() as nat == vstd::layout::align_of::<T>(),
    {
        vstd::layout::layout_for_type_is_valid::<T>();
        Unique { addr: core::mem::align_of::<T>(), _marker: core::marker::PhantomData }
    }

    /// Builds a handle from an address; `None` exactly when the address is
    /// null.
    pub fn new(addr: usize) -> (r: Option<Unique<T>>)
        ensures
            r is Some <==> addr != 0,
            match r {
                Some(u) => u.spec_addr() == addr,
                None => true,
            },
    {
        if addr != 0 {
            Some(Unique { addr, _marker: core::marker::PhantomData })
        } else {
            None
        }
    }

    /// Reserves a block sized and aligned for one `T` (a sentinel when `T`
    /// occupies zero bytes).
    ///
    /// The allocator must have room: a caller with no further fallback treats
    /// exhaustion here as fatal, so the input is excluded rather than handled.
    pub fn allocate<A: Alloc>(allocator: &mut A) -> (r: Unique<T>)
        requires
            old(allocator).inv(),
            vstd::layout::size_of::<T>() != 0 ==> old(allocator).fits(Layout::spec_new::<T>()),
        ensures
            final(allocator).inv(),
            r.wf(),
            if vstd::layout::size_of::<T>() == 0 {
                &&& *final(allocator) == *old(allocator)
                &&& r.spec_addr() as nat == vstd::layout::align_of::<T>()
            } else {
                &&& !old(allocator).blocks().dom().contains(r.spec_addr() as int)
                &&& final(allocator).blocks() == old(allocator).blocks().insert(
                    r.spec_addr() as int,
                    final(allocator).blocks()[r.spec_addr() as int],
                )
                &&& final(allocator).blocks()[r.spec_addr() as int].size == vstd::layout::size_of::<
                    T,
                >()
                &&& final(allocator).blocks()[r.spec_addr() as int].align
                    == vstd::layout::align_of::<T>()
                &&& final(allocator).blocks()[r.spec_addr() as int].bytes.len()
                    == vstd::layout::size_of::<T>()
            },
    {
        if core::mem::size_of::<T>() == 0 {
            Unique::empty()
        } else {
            let layout = Layout::new::<T>();
            match allocator.allocate(layout) {
                Ok(addr) => Unique { addr, _marker: core::marker::PhantomData },
                Err(_) => vstd::pervasive::unreached(),
            }
        }
    }
}

} // verus!
