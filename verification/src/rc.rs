//! Shared-ownership handles with reference counting.
//!
//! One allocation holds a strong count together with the value; multiple
//! handles may alias it. The allocation is destroyed (value cleanup, then
//! deallocation) exactly when the strong count drops from one to zero.
//!
//! Handles cannot carry a reference to shared mutable state here, so the
//! cells holding the counted values live in an explicit store ([`RcHeap`])
//! that every operation takes: the store owns the allocator and the values,
//! and an [`Rc`] is an owned, unforgeable handle into it. Dereference exposes
//! only shared read access; no operation exposes exclusive mutable access to
//! the value while more than one handle may exist.

use vstd::prelude::*;

use crate::allocator::{Alloc, Block};
use crate::layout::Layout;
use crate::unique::Unique;

verus! {

/// The contents of one counted allocation: the strong count and the value.
struct RcBox<T> {
    strong: usize,
    value: T,
}

/// One cell of the store: the address of its allocator block and, while any
/// handles are live, its counted contents.
struct RcSlot<T> {
    addr: usize,
    boxed: Option<RcBox<T>>,
}

/// The store that owns the counted allocations and the allocator they were
/// made from.
pub struct RcHeap<T, A>
where
    A: Alloc,
{
    allocator: A,
    slots: std::vec::Vec<RcSlot<T>>,
}

/// A shared-ownership handle to one counted value in an [`RcHeap`].
///
/// A handle is obtained only from [`Rc::new`] or [`Rc::clone_in`] and is
/// consumed by [`Rc::drop_in`]; it is never implicitly duplicable.
pub struct Rc<T> {
    id: usize,
    _marker: core::marker::PhantomData<T>,
}

/// Whether two handles name the same counted allocation.
pub closed spec fn aliases<T>(a: Rc<T>, b: Rc<T>) -> bool {
    a.id == b.id
}

/// The alias relation is reflexive: every handle names its own allocation.
pub proof fn lemma_aliases_refl<T>(a: Rc<T>)
    ensures
        aliases(a, a),
{
}

/// The alias relation is symmetric.
pub proof fn lemma_aliases_sym<T>(a: Rc<T>, b: Rc<T>)
    requires
        aliases(a, b),
    ensures
        aliases(b, a),
{
}

/// The alias relation is transitive.
pub proof fn lemma_aliases_trans<T>(a: Rc<T>, b: Rc<T>, c: Rc<T>)
    requires
        aliases(a, b),
        aliases(b, c),
    ensures
        aliases(a, c),
{
}

/// In a well-formed store every live cell's strong count is positive; a
/// clone at count zero (a corrupted cell) is therefore impossible.
pub proof fn lemma_valid_strong_pos<T, A: Alloc>(heap: &RcHeap<T, A>, rc: Rc<T>)
    requires
        heap.wf(),
        heap.valid(rc),
    ensures
        heap.strong_of(rc) >= 1,
{
    assert(heap.slot_ok(rc.id as int));
}

/// Aliasing handles agree on everything a store observes of them: validity,
/// strong count, value and block address.
pub proof fn lemma_aliases_agree<T, A: Alloc>(heap: &RcHeap<T, A>, a: Rc<T>, b: Rc<T>)
    requires
        aliases(a, b),
    ensures
        heap.valid(a) == heap.valid(b),
        heap.strong_of(a) == heap.strong_of(b),
        heap.value_of(a) == heap.value_of(b),
        heap.addr_of(a) == heap.addr_of(b),
{
}

impl<T, A> RcHeap<T, A>
where
    A: Alloc,
{
    /// Whether one counted allocation occupies storage. It does on any real
    /// target (the cell holds the strong count), but the cell type's size is
    /// an uninterpreted constant, so contracts that mention the block map
    /// branch on this.
    pub closed spec fn cell_real() -> bool {
        vstd::layout::size_of::<RcBox<T>>() != 0
    }

    /// The layout of one counted allocation: the strong count together with
    /// the value.
    pub closed spec fn cell_layout() -> Layout {
        Layout::spec_new::<RcBox<T>>()
    }

    /// Whether `rc` is a live handle of this store.
    pub closed spec fn valid(&self, rc: Rc<T>) -> bool {
        &&& rc.id < self.slots@.len()
        &&& self.slots@[rc.id as int].boxed is Some
    }

    /// The strong count of the allocation `rc` names.
    pub closed spec fn strong_of(&self, rc: Rc<T>) -> usize {
        self.slots@[rc.id as int].boxed->0.strong
    }

    /// The value the allocation `rc` names.
    pub closed spec fn value_of(&self, rc: Rc<T>) -> T {
        self.slots@[rc.id as int].boxed->0.value
    }

    /// The block address of the allocation `rc` names.
    pub closed spec fn addr_of(&self, rc: Rc<T>) -> int {
        self.slots@[rc.id as int].addr as int
    }

    /// The held allocator's live blocks.
    pub closed spec fn blocks(&self) -> Map<int, Block> {
        self.allocator.blocks()
    }

    /// The held allocator instance.
    pub closed spec fn spec_allocator(&self) -> A {
        self.allocator
    }

    /// How many cells the store has ever created (live or not).
    pub closed spec fn slot_count(&self) -> nat {
        self.slots@.len()
    }

    /// Whether the allocator has room for one more counted allocation.
    pub closed spec fn can_store(&self) -> bool {
        Self::cell_real() ==> self.allocator.fits(Layout::spec_new::<RcBox<T>>())
    }

    /// One live cell, as the invariant sees it.
    spec fn slot_ok(&self, i: int) -> bool {
        let s = self.slots@[i];
        s.boxed is Some ==> {
            &&& s.boxed->0.strong >= 1
            &&& s.addr != 0
            &&& Self::cell_real() ==> {
                &&& self.allocator.blocks().dom().contains(s.addr as int)
                &&& self.allocator.blocks()[s.addr as int].size == vstd::layout::size_of::<
                    RcBox<T>,
                >()
                &&& self.allocator.blocks()[s.addr as int].align == vstd::layout::align_of::<
                    RcBox<T>,
                >()
            }
        }
    }

    /// Internal invariant: every live cell has a positive count and (when the
    /// allocation occupies storage) a live allocator block of its own.
    pub closed spec fn wf(&self) -> bool {
        &&& self.allocator.inv()
        &&& forall|i: int| 0 <= i < self.slots@.len() ==> #[trigger] self.slot_ok(i)
        &&& Self::cell_real() ==> forall|i: int, j: int|
            0 <= i < j < self.slots@.len() && (#[trigger] self.slots@[i]).boxed is Some && (
            #[trigger] self.slots@[j]).boxed is Some ==> self.slots@[i].addr
                != self.slots@[j].addr
    }

    /// A fresh store that allocates through `allocator`.
    pub fn new(allocator: A) -> (r: RcHeap<T, A>)
        requires
            allocator.inv(),
        ensures
            r.wf(),
            forall|rc: Rc<T>| !r.valid(rc),
            r.blocks() == allocator.blocks(),
            r.spec_allocator() == allocator,
    {
        RcHeap { allocator, slots: std::vec::Vec::new() }
    }

    /// Read access to the held allocator, for inspecting its block map.
    pub fn allocator_ref(&self) -> (a: &A)
        ensures
            *a == self.spec_allocator(),
    {
        &self.allocator
    }

    /// Whether the allocator can take one more counted allocation; no side
    /// effect. This is how callers establish the success precondition of
    /// [`Rc::new`].
    pub fn has_room(&self) -> (r: bool)
        requires
            self.wf(),
        ensures
            r == self.can_store(),
    {
        core::mem::size_of::<RcBox<T>>() == 0 || self.allocator.query_fits(
            Layout::new::<RcBox<T>>(),
        )
    }
}

impl<T> Rc<T> {
    /// Allocates one counted cell holding `{strong count = 1, value}`.
    ///
    /// The allocator must have room: with no further fallback, exhaustion
    /// here is fatal, so that input is excluded rather than handled.
    pub fn new<A: Alloc>(value: T, heap: &mut RcHeap<T, A>) -> (rc: Rc<T>)
        requires
            old(heap).wf(),
            old(heap).can_store(),
            old(heap).slot_count() < usize::MAX,
        ensures
            final(heap).wf(),
            final(heap).valid(rc),
            final(heap).strong_of(rc) == 1,
            final(heap).value_of(rc) == value,
            !RcHeap::<T, A>::cell_real() ==> final(heap).blocks() == old(heap).blocks(),
            RcHeap::<T, A>::cell_real() ==> {
                &&& !old(heap).blocks().dom().contains(final(heap).addr_of(rc))
                &&& final(heap).blocks() == old(heap).blocks().insert(
                    final(heap).addr_of(rc),
                    final(heap).blocks()[final(heap).addr_of(rc)],
                )
                &&& final(heap).blocks()[final(heap).addr_of(rc)].size == RcHeap::<
                    T,
                    A,
                >::cell_layout().size
                &&& final(heap).blocks()[final(heap).addr_of(rc)].align == RcHeap::<
                    T,
                    A,
                >::cell_layout().align
            },
            forall|rc2: Rc<T>| #[trigger] old(heap).valid(rc2) ==> {
                &&& !aliases(rc, rc2)
                &&& final(heap).valid(rc2)
                &&& final(heap).strong_of(rc2) == old(heap).strong_of(rc2)
                &&& final(heap).value_of(rc2) == old(heap).value_of(rc2)
            },
    {
        let ghost pre = *heap;
        let id = heap.slots.len();
        vstd::layout::layout_for_type_is_valid::<RcBox<T>>();
        let u = Unique::<RcBox<T>>::allocate(&mut heap.allocator);
        heap.slots.push(RcSlot { addr: u.addr(), boxed: Some(RcBox { strong: 1, value }) });
        let rc = Rc { id, _marker: core::marker::PhantomData };
        proof {
            assert forall|k: int| 0 <= k < heap.slots@.len() implies #[trigger] heap.slot_ok(
                k,
            ) by {
                if k < pre.slots@.len() {
                    assert(pre.slot_ok(k));
                }
            }
            assert forall|rc2: Rc<T>| pre.valid(rc2) implies {
                &&& !aliases(rc, rc2)
                &&& heap.valid(rc2)
                &&& heap.strong_of(rc2) == pre.strong_of(rc2)
                &&& heap.value_of(rc2) == pre.value_of(rc2)
            } by {
                assert(heap.slots@[rc2.id as int] == pre.slots@[rc2.id as int]);
            }
            if RcHeap::<T, A>::cell_real() {
                assert forall|k1: int, k2: int|
                    0 <= k1 < k2 < heap.slots@.len() && (#[trigger] heap.slots@[k1]).boxed is Some
                        && (#[trigger] heap.slots@[k2]).boxed is Some implies heap.slots@[k1].addr
                    != heap.slots@[k2].addr by {
                    if k2 < pre.slots@.len() {
                        assert(heap.slots@[k1] == pre.slots@[k1]);
                        assert(heap.slots@[k2] == pre.slots@[k2]);
                    } else {
                        assert(heap.slots@[k1] == pre.slots@[k1]);
                        assert(pre.slot_ok(k1));
                    }
                }
            }
        }
        rc
    }

    /// A new handle to the same allocation; increments the strong count.
    ///
    /// A count at the representable maximum would wrap around and risk a
    /// premature release, so that input is excluded; a count of zero on a
    /// live cell is ruled out by the store's invariant.
    pub fn clone_in<A: Alloc>(&self, heap: &mut RcHeap<T, A>) -> (rc: Rc<T>)
        requires
            old(heap).wf(),
            old(heap).valid(*self),
            old(heap).strong_of(*self) < usize::MAX,
        ensures
            final(heap).wf(),
            final(heap).valid(rc),
            aliases(rc, *self),
            aliases(*self, rc),
            old(heap).strong_of(*self) >= 1,
            final(heap).strong_of(*self) == old(heap).strong_of(*self) + 1,
            final(heap).strong_of(rc) == old(heap).strong_of(*self) + 1,
            final(heap).value_of(rc) == old(heap).value_of(*self),
            final(heap).addr_of(rc) == old(heap).addr_of(*self),
            final(heap).blocks() == old(heap).blocks(),
            forall|rc2: Rc<T>| #[trigger] old(heap).valid(rc2) ==> {
                &&& final(heap).valid(rc2)
                &&& final(heap).value_of(rc2) == old(heap).value_of(rc2)
                &&& (aliases(rc2, *self) ==> final(heap).strong_of(rc2) == old(heap).strong_of(
                    rc2,
                ) + 1)
                &&& (!aliases(rc2, *self) ==> final(heap).strong_of(rc2) == old(heap).strong_of(
                    rc2,
                ))
            },
    {
        let ghost pre = *heap;
        let i = self.id;
        let slot = &mut heap.slots[i];
        match &mut slot.boxed {
            Some(b) => {
                b.strong = b.strong + 1;
            },
            None => {
                vstd::pervasive::unreached()
            },
        }
        proof {
            assert(pre.slot_ok(i as int));
            assert forall|k: int| 0 <= k < heap.slots@.len() implies #[trigger] heap.slot_ok(
                k,
            ) by {
                assert(pre.slot_ok(k));
                if k != i as int {
                    assert(heap.slots@[k] == pre.slots@[k]);
                }
            }
            assert forall|rc2: Rc<T>| pre.valid(rc2) implies {
                &&& heap.valid(rc2)
                &&& heap.value_of(rc2) == pre.value_of(rc2)
                &&& (aliases(rc2, *self) ==> heap.strong_of(rc2) == pre.strong_of(rc2) + 1)
                &&& (!aliases(rc2, *self) ==> heap.strong_of(rc2) == pre.strong_of(rc2))
            } by {
                if rc2.id != i {
                    assert(heap.slots@[rc2.id as int] == pre.slots@[rc2.id as int]);
                }
            }
        }
        Rc { id: i, _marker: core::marker::PhantomData }
    }

    /// Read access to the shared value.
    pub fn get<'a, A: Alloc>(&self, heap: &'a RcHeap<T, A>) -> (r: &'a T)
        requires
            heap.wf(),
            heap.valid(*self),
        ensures
            *r == heap.value_of(*self),
    {
        match &heap.slots[self.id].boxed {
            Some(b) => &b.value,
            None => vstd::pervasive::unreached(),
        }
    }

    /// The number of live handles that share the allocation `this` names.
    pub fn strong_count<A: Alloc>(this: &Rc<T>, heap: &RcHeap<T, A>) -> (n: usize)
        requires
            heap.wf(),
            heap.valid(*this),
        ensures
            n == heap.strong_of(*this),
    {
        match &heap.slots[this.id].boxed {
            Some(b) => b.strong,
            None => vstd::pervasive::unreached(),
        }
    }

    /// Gives the handle up; decrements the strong count. When the count
    /// drops to zero, runs the value's cleanup and then releases the block
    /// through the held allocator — each exactly once, since no handle to the
    /// cell can exist afterwards.
    pub fn drop_in<A: Alloc>(self, heap: &mut RcHeap<T, A>)
        requires
            old(heap).wf(),
            old(heap).valid(self),
        ensures
            final(heap).wf(),
            old(heap).strong_of(self) > 1 ==> {
                &&& final(heap).blocks() == old(heap).blocks()
                &&& forall|rc2: Rc<T>| #[trigger] old(heap).valid(rc2) ==> {
                    &&& final(heap).valid(rc2)
                    &&& final(heap).value_of(rc2) == old(heap).value_of(rc2)
                    &&& (aliases(rc2, self) ==> final(heap).strong_of(rc2) == old(
                        heap,
                    ).strong_of(rc2) - 1)
                    &&& (!aliases(rc2, self) ==> final(heap).strong_of(rc2) == old(
                        heap,
                    ).strong_of(rc2))
                }
            },
            old(heap).strong_of(self) == 1 ==> {
                &&& (forall|rc2: Rc<T>| #[trigger] aliases(rc2, self) ==> !final(heap).valid(
                    rc2,
                ))
                &&& (RcHeap::<T, A>::cell_real() ==> final(heap).blocks() == old(
                    heap,
                ).blocks().remove(old(heap).addr_of(self)))
                &&& (!RcHeap::<T, A>::cell_real() ==> final(heap).blocks() == old(heap).blocks())
            },
            forall|rc2: Rc<T>|
                #[trigger] old(heap).valid(rc2) && !aliases(rc2, self) ==> {
                    &&& final(heap).valid(rc2)
                &&& final(heap).strong_of(rc2) == old(heap).strong_of(rc2)
                &&& final(heap).value_of(rc2) == old(heap).value_of(rc2)
            },
    {
        let ghost pre = *heap;
        let i = self.id;
        let addr = heap.slots[i].addr;
        let strong = match &heap.slots[i].boxed {
            Some(b) => b.strong,
            None => vstd::pervasive::unreached(),
        };
        proof {
            assert(pre.slot_ok(i as int));
        }
        if strong > 1 {
            let slot = &mut heap.slots[i];
            match &mut slot.boxed {
                Some(b) => {
                    b.strong = strong - 1;
                },
                None => {
                    vstd::pervasive::unreached()
                },
            }
            proof {
                assert forall|k: int| 0 <= k < heap.slots@.len() implies #[trigger] heap.slot_ok(
                    k,
                ) by {
                    assert(pre.slot_ok(k));
                    if k != i as int {
                        assert(heap.slots@[k] == pre.slots@[k]);
                    }
                }
                assert forall|rc2: Rc<T>| pre.valid(rc2) implies {
                    &&& heap.valid(rc2)
                    &&& heap.value_of(rc2) == pre.value_of(rc2)
                    &&& (aliases(rc2, self) ==> heap.strong_of(rc2) == pre.strong_of(rc2) - 1)
                    &&& (!aliases(rc2, self) ==> heap.strong_of(rc2) == pre.strong_of(rc2))
                } by {
                    if rc2.id != i {
                        assert(heap.slots@[rc2.id as int] == pre.slots@[rc2.id as int]);
                    }
                }
            }
        } else {
            let taken = {
                let slot = &mut heap.slots[i];
                slot.boxed.take()
            };
            match taken {
                Some(rcbox) => {
                    // the value's own cleanup runs here, before the deallocation
                    let RcBox { strong: _, value: _owned } = rcbox;
                },
                None => {
                    vstd::pervasive::unreached()
                },
            }
            if core::mem::size_of::<RcBox<T>>() != 0 {
                heap.allocator.deallocate(addr, Layout::new::<RcBox<T>>());
            }
            proof {
                assert forall|k: int| 0 <= k < heap.slots@.len() implies #[trigger] heap.slot_ok(
                    k,
                ) by {
                    assert(pre.slot_ok(k));
                    if k != i as int {
                        assert(heap.slots@[k] == pre.slots@[k]);
                        if heap.slots@[k].boxed is Some && RcHeap::<T, A>::cell_real() {
                            assert(pre.slots@[k].boxed is Some);
                            if k < i as int {
                                assert(pre.slots@[k].addr != pre.slots@[i as int].addr);
                            } else {
                                assert(pre.slots@[i as int].addr != pre.slots@[k].addr);
                            }
                        }
                    }
                }
                assert forall|rc2: Rc<T>| pre.valid(rc2) && !aliases(rc2, self) implies {
                    &&& heap.valid(rc2)
                    &&& heap.strong_of(rc2) == pre.strong_of(rc2)
                    &&& heap.value_of(rc2) == pre.value_of(rc2)
                } by {
                    assert(heap.slots@[rc2.id as int] == pre.slots@[rc2.id as int]);
                }
            }
        }
    }
}

} // verus!
