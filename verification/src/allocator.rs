//! The allocator capability: the interface that pluggable allocation
//! strategies implement, stated over a specification-level map of live blocks.

use vstd::prelude::*;

use crate::layout::Layout;

verus! {

/// One live memory block, in the specification-level model of an allocator.
pub ghost struct Block {
    /// Size of the block in bytes.
    pub size: nat,
    /// Alignment of the block in bytes.
    pub align: nat,
    /// The block's current contents.
    pub bytes: Seq<u8>,
}

/// Failure outcome of an allocation request. The request had no side effect;
/// the caller may fall back to another strategy or escalate.
#[derive(Clone, Copy, Debug, PartialEq, Eq, Structural)]
pub struct AllocError;

/// The allocator capability.
///
/// An allocator's specification-level state is a map from block addresses to
/// live [`Block`]s. Every operation says exactly how it changes that map, and
/// whether it succeeds is determined by the current state (`fits`,
/// `can_grow`, `can_shrink`), so callers can state exact success conditions.
pub trait Alloc: Sized {
    /// Invariant that all operations of the allocator preserve.
    spec fn inv(&self) -> bool;

    /// The live blocks, keyed by their address.
    spec fn blocks(&self) -> Map<int, Block>;

    /// Whether allocating `layout` succeeds in the current state.
    spec fn fits(&self, layout: Layout) -> bool;

    /// Whether the block at `addr` can grow in place to `new_size` bytes.
    spec fn can_grow(&self, addr: int, new_size: nat) -> bool;

    /// Whether the block at `addr` can shrink in place to `new_size` bytes.
    spec fn can_shrink(&self, addr: int, new_size: nat) -> bool;

    /// Whether an `allocate(layout)` request would succeed in the current
    /// state; no side effect. This is how callers establish the success
    /// preconditions of the infallible container constructors.
    fn query_fits(&self, layout: Layout) -> (r: bool)
        requires
            self.inv(),
            layout.wf(),
        ensures
            r == self.fits(layout),
    ;

    /// Reserves a fresh block described by `layout`; no side effect on
    /// failure.
    fn allocate(&mut self, layout: Layout) -> (r: Result<usize, AllocError>)
        requires
            old(self).inv(),
            layout.wf(),
            1 <= layout.size,
        ensures
            final(self).inv(),
            match r {
                Ok(addr) => {
                    &&& old(self).fits(layout)
                    &&& addr != 0
                    &&& addr as int % layout.align as int == 0
                    &&& !old(self).blocks().dom().contains(addr as int)
                    &&& final(self).blocks() == old(self).blocks().insert(
                        addr as int,
                        final(self).blocks()[addr as int],
                    )
                    &&& final(self).blocks()[addr as int].size == layout.size
                    &&& final(self).blocks()[addr as int].align == layout.align
                    &&& final(self).blocks()[addr as int].bytes.len() == layout.size
                },
                Err(_) => {
                    &&& *final(self) == *old(self)
                    &&& !old(self).fits(layout)
                },
            },
    ;

    /// Releases the block at `addr`; `layout` must describe the block's
    /// currently live size and alignment.
    fn deallocate(&mut self, addr: usize, layout: Layout)
        requires
            old(self).inv(),
            old(self).blocks().dom().contains(addr as int),
            old(self).blocks()[addr as int].size == layout.size,
            old(self).blocks()[addr as int].align == layout.align,
        ensures
            final(self).inv(),
            final(self).blocks() == old(self).blocks().remove(addr as int),
    ;

    /// Tries to extend the block at `addr` to `new_size` bytes without moving
    /// it. Failure is non-fatal and has no side effect; the caller falls back
    /// to a fresh allocation.
    fn grow_in_place(&mut self, addr: usize, layout: Layout, new_size: usize) -> (r: Result<
        (),
        AllocError,
    >)
        requires
            old(self).inv(),
            old(self).blocks().dom().contains(addr as int),
            old(self).blocks()[addr as int].size == layout.size,
            old(self).blocks()[addr as int].align == layout.align,
            old(self).blocks()[addr as int].bytes.len() == layout.size,
            layout.size <= new_size,
            vstd::layout::valid_layout(new_size, layout.align),
        ensures
            final(self).inv(),
            match r {
                Ok(_) => {
                    &&& old(self).can_grow(addr as int, new_size as nat)
                    &&& final(self).blocks() == old(self).blocks().insert(
                        addr as int,
                        final(self).blocks()[addr as int],
                    )
                    &&& final(self).blocks()[addr as int].size == new_size
                    &&& final(self).blocks()[addr as int].align == layout.align
                    &&& final(self).blocks()[addr as int].bytes.len() == new_size
                    &&& final(self).blocks()[addr as int].bytes.subrange(0, layout.size as int) == old(
                        self,
                    ).blocks()[addr as int].bytes
                },
                Err(_) => {
                    &&& *final(self) == *old(self)
                    &&& !old(self).can_grow(addr as int, new_size as nat)
                },
            },
    ;

    /// Tries to reduce the block at `addr` to `new_size` bytes without moving
    /// it. Failure is non-fatal and has no side effect.
    fn shrink_in_place(&mut self, addr: usize, layout: Layout, new_size: usize) -> (r: Result<
        (),
        AllocError,
    >)
        requires
            old(self).inv(),
            old(self).blocks().dom().contains(addr as int),
            old(self).blocks()[addr as int].size == layout.size,
            old(self).blocks()[addr as int].align == layout.align,
            old(self).blocks()[addr as int].bytes.len() == layout.size,
            1 <= new_size <= layout.size,
        ensures
            final(self).inv(),
            match r {
                Ok(_) => {
                    &&& old(self).can_shrink(addr as int, new_size as nat)
                    &&& final(self).blocks() == old(self).blocks().insert(
                        addr as int,
                        final(self).blocks()[addr as int],
                    )
                    &&& final(self).blocks()[addr as int].size == new_size
                    &&& final(self).blocks()[addr as int].align == layout.align
                    &&& final(self).blocks()[addr as int].bytes == old(
                        self,
                    ).blocks()[addr as int].bytes.subrange(0, new_size as int)
                },
                Err(_) => {
                    &&& *final(self) == *old(self)
                    &&& !old(self).can_shrink(addr as int, new_size as nat)
                },
            },
    ;

    /// Copies the first `count` bytes of the block at `src` into the start of
    /// the block at `dst`. This models the byte copy that a caller holding
    /// both blocks performs when a reallocation has to move the data.
    fn copy_bytes(&mut self, src: usize, dst: usize, count: usize)
        requires
            old(self).inv(),
            old(self).blocks().dom().contains(src as int),
            old(self).blocks().dom().contains(dst as int),
            src != dst,
            count <= old(self).blocks()[src as int].size,
            count <= old(self).blocks()[dst as int].size,
            old(self).blocks()[src as int].bytes.len() == old(self).blocks()[src as int].size,
            old(self).blocks()[dst as int].bytes.len() == old(self).blocks()[dst as int].size,
        ensures
            final(self).inv(),
            final(self).blocks() == old(self).blocks().insert(dst as int, final(self).blocks()[dst as int]),
            final(self).blocks()[dst as int].size == old(self).blocks()[dst as int].size,
            final(self).blocks()[dst as int].align == old(self).blocks()[dst as int].align,
            final(self).blocks()[dst as int].bytes.len() == old(self).blocks()[dst as int].bytes.len(),
            final(self).blocks()[dst as int].bytes.subrange(0, count as int) == old(
                self,
            ).blocks()[src as int].bytes.subrange(0, count as int),
            final(self).blocks()[dst as int].bytes.skip(count as int) == old(
                self,
            ).blocks()[dst as int].bytes.skip(count as int),
    ;

    /// Moves the block at `addr` to a (possibly different) block of
    /// `new_size` bytes, preserving the first `min(old size, new size)`
    /// bytes.
    ///
    /// When growing, an in-place extension is tried first; when shrinking, an
    /// in-place reduction. If the in-place attempt fails, a fresh block is
    /// allocated, the data is copied, and the old block is released. If that
    /// fresh allocation also fails, the original block is left intact and the
    /// failure is returned.
    fn reallocate(&mut self, addr: usize, layout: Layout, new_size: usize) -> (r: Result<
        usize,
        AllocError,
    >)
        requires
            old(self).inv(),
            layout.wf(),
            addr != 0,
            old(self).blocks().dom().contains(addr as int),
            old(self).blocks()[addr as int].size == layout.size,
            old(self).blocks()[addr as int].align == layout.align,
            old(self).blocks()[addr as int].bytes.len() == layout.size,
            1 <= new_size,
            vstd::layout::valid_layout(new_size, layout.align),
        ensures
            final(self).inv(),
            match r {
                Ok(p) => {
                    let kept = vstd::math::min(layout.size as int, new_size as int);
                    &&& p != 0
                    &&& final(self).blocks().dom().contains(p as int)
                    &&& final(self).blocks()[p as int].size == new_size
                    &&& final(self).blocks()[p as int].align == layout.align
                    &&& final(self).blocks()[p as int].bytes.len() == new_size
                    &&& final(self).blocks()[p as int].bytes.subrange(0, kept) == old(
                        self,
                    ).blocks()[addr as int].bytes.subrange(0, kept)
                    &&& (p == addr ==> final(self).blocks() == old(self).blocks().insert(
                        addr as int,
                        final(self).blocks()[addr as int],
                    ))
                    &&& (p != addr ==> {
                        &&& !old(self).blocks().dom().contains(p as int)
                        &&& p as int % layout.align as int == 0
                        &&& final(self).blocks() == old(self).blocks().remove(addr as int).insert(
                            p as int,
                            final(self).blocks()[p as int],
                        )
                    })
                },
                Err(_) => *final(self) == *old(self),
            },
            r is Ok <==> ({
                let in_place = if new_size >= layout.size {
                    old(self).can_grow(addr as int, new_size as nat)
                } else {
                    old(self).can_shrink(addr as int, new_size as nat)
                };
                in_place || old(self).fits(Layout { size: new_size, align: layout.align })
            }),
            (new_size >= layout.size && old(self).can_grow(addr as int, new_size as nat)) ==> (r
                is Ok && r->Ok_0 == addr),
            (new_size < layout.size && old(self).can_shrink(addr as int, new_size as nat)) ==> (r
                is Ok && r->Ok_0 == addr),
    {
        let old_size = layout.size;
        if new_size >= old_size {
            if self.grow_in_place(addr, layout, new_size).is_ok() {
                return Ok(addr);
            }
        } else {
            if self.shrink_in_place(addr, layout, new_size).is_ok() {
                return Ok(addr);
            }
        }
        // otherwise, fall back on alloc + copy + dealloc.
        let new_layout = Layout { size: new_size, align: layout.align };
        let result = self.allocate(new_layout);
        match result {
            Ok(new_addr) => {
                let count = if old_size < new_size {
                    old_size
                } else {
                    new_size
                };
                self.copy_bytes(addr, new_addr, count);
                self.deallocate(addr, layout);
                proof {
                    assert(self.blocks() =~= old(self).blocks().remove(addr as int).insert(
                        new_addr as int,
                        self.blocks()[new_addr as int],
                    ));
                }
                Ok(new_addr)
            },
            Err(e) => Err(e),
        }
    }
}

} // verus!
