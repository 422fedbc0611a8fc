//! A growable contiguous array generic over the allocator capability.
//!
//! The container tracks its element storage (length, capacity and the owning
//! handle of the backing block) against the allocator's block map, so the
//! contracts can say exactly when a call allocates, how the capacity grows,
//! and that stored elements are retrievable unchanged.

use vstd::prelude::*;

use crate::allocator::{Alloc, Block};
use crate::layout::{layout_array, spec_repeat_ok, Layout};
use crate::unique::Unique;

verus! {

/// The capacity that growth aims for: double the current length, or exactly
/// enough for the requested elements, whichever is larger.
pub open spec fn spec_grow_cap(len: int, additional: int) -> int {
    vstd::math::max(2 * len, len + additional)
}

/// Whether the capacity and layout arithmetic for growing a vector of `len`
/// elements of type `T` by `additional` stays within machine bounds.
/// Exceeding these bounds is a fatal programming error, so callers exclude it.
pub open spec fn spec_grow_ok<T>(len: int, additional: int) -> bool {
    &&& vstd::layout::size_of::<T>() != 0
    &&& 2 * len <= usize::MAX
    &&& len + additional <= usize::MAX
    &&& spec_repeat_ok(Layout::spec_new::<T>(), spec_grow_cap(len, additional))
}

/// The capacity that growth aims for, and whether both overflow checks pass:
/// `Some(max(2 * curr, curr + additional))`, or `None` on arithmetic
/// overflow.
pub fn amortized_new_capacity(curr: usize, additional: usize) -> (r: Option<usize>)
    ensures
        r is Some <==> (2 * curr <= usize::MAX && curr + additional <= usize::MAX),
        match r {
            Some(c) => c == spec_grow_cap(curr as int, additional as int),
            None => true,
        },
{
    let double_cap = match curr.checked_mul(2) {
        Some(v) => v,
        None => {
            return None;
        },
    };
    let required_cap = match curr.checked_add(additional) {
        Some(v) => v,
        None => {
            return None;
        },
    };
    if double_cap >= required_cap {
        Some(double_cap)
    } else {
        Some(required_cap)
    }
}

/// The view of a vector after pushing the elements of `elems` one by one,
/// as [`Vec::push`] ensures for each single call.
pub open spec fn push_all<T>(s: Seq<T>, elems: Seq<T>) -> Seq<T>
    decreases elems.len(),
{
    if elems.len() == 0 {
        s
    } else {
        push_all(s.push(elems[0]), elems.skip(1))
    }
}

/// Law: pushing `n` elements onto a vector grows its length by exactly `n`,
/// and every element — the old ones and each newly pushed one — is then
/// retrievable unchanged at its index (by the contract of [`Vec::get`]),
/// until a removal affects it.
pub proof fn lemma_pushes_keep_every_element<T>(s: Seq<T>, elems: Seq<T>)
    ensures
        push_all(s, elems).len() == s.len() + elems.len(),
        forall|i: int| 0 <= i < s.len() ==> push_all(s, elems)[i] == s[i],
        forall|i: int| 0 <= i < elems.len() ==> push_all(s, elems)[s.len() + i] == elems[i],
    decreases elems.len(),
{
    if elems.len() > 0 {
        let s1 = s.push(elems[0]);
        let rest = elems.skip(1);
        assert(push_all(s, elems) == push_all(s1, rest));
        lemma_pushes_keep_every_element(s1, rest);
        assert forall|i: int| 0 <= i < s.len() implies push_all(s, elems)[i] == s[i] by {
            assert(push_all(s1, rest)[i] == s1[i]);
        }
        assert forall|i: int|
            0 <= i < elems.len() implies push_all(s, elems)[s.len() + i] == elems[i] by {
            if i == 0 {
                assert(push_all(s1, rest)[s1.len() - 1] == s1[s1.len() - 1]);
            } else {
                assert(push_all(s1, rest)[s1.len() + (i - 1)] == rest[i - 1]);
                assert(rest[i - 1] == elems[i]);
            }
        }
    }
}

/// Law: a vector whose spare capacity covers `k` more elements takes each of
/// those `k` pushes with room to spare, so by the contract of [`Vec::push`]
/// none of them touches the capacity or the allocator's block map —
/// `reserve(k)` followed by `k` pushes never allocates again.
pub proof fn lemma_spare_capacity_absorbs_pushes(cap: int, len: int, k: int, j: int)
    requires
        cap - len >= k,
        0 <= j < k,
    ensures
        len + j < cap,
{
}

/// A vector's block map is its held allocator's.
pub proof fn lemma_blocks_are_the_allocators<T, A: Alloc>(v: &Vec<T, A>)
    ensures
        v.blocks() == v.spec_allocator().blocks(),
{
}

/// In a well-formed vector the length never exceeds the capacity.
pub proof fn lemma_len_le_capacity<T, A: Alloc>(v: &Vec<T, A>)
    requires
        v.wf(),
    ensures
        v@.len() <= v.spec_capacity(),
{
}

/// What [`Vec::reserve_succeeds`] means, over the public views: spare
/// capacity always suffices; otherwise the allocator must serve the grown
/// block, in place for an existing one or fresh for a first one.
pub proof fn lemma_reserve_succeeds_iff<T, A: Alloc>(v: &Vec<T, A>, additional: int)
    ensures
        v.reserve_succeeds(additional) <==> ({
            let new_size = vstd::layout::size_of::<T>() * spec_grow_cap(
                v@.len() as int,
                additional,
            );
            let nl = Layout {
                size: new_size as usize,
                align: vstd::layout::align_of::<T>() as usize,
            };
            ||| v.spec_capacity() - v@.len() >= additional
            ||| (v.spec_capacity() == 0 && v.spec_allocator().fits(nl))
            ||| (v.spec_capacity() != 0 && (v.spec_allocator().can_grow(
                v.spec_addr() as int,
                new_size as nat,
            ) || v.spec_allocator().fits(nl)))
        }),
{
}

/// Growable contiguous array of `T`, storing through an allocator instance of
/// type `A`.
pub struct Vec<T, A>
where
    A: Alloc,
{
    allocator: A,
    cap: usize,
    ptr: Unique<T>,
    buf: std::vec::Vec<T>,
}

impl<T, A: Alloc> View for Vec<T, A> {
    type V = Seq<T>;

    closed spec fn view(&self) -> Seq<T> {
        self.buf@
    }
}

impl<A, T> Vec<T, A>
where
    A: Alloc,
{
    /// Current capacity, as a specification-level value.
    pub closed spec fn spec_capacity(&self) -> usize {
        self.cap
    }

    /// The held allocator's live blocks.
    pub closed spec fn blocks(&self) -> Map<int, Block> {
        self.allocator.blocks()
    }

    /// The held allocator instance.
    pub closed spec fn spec_allocator(&self) -> A {
        self.allocator
    }

    /// Address of the backing block (meaningful only when real storage
    /// exists).
    pub closed spec fn spec_addr(&self) -> usize {
        self.ptr.spec_addr()
    }

    /// Internal invariant: the length never exceeds the capacity; for
    /// zero-sized element types the capacity is the maximum representable
    /// count and no storage exists; otherwise a nonzero capacity is backed by
    /// a live allocator block of exactly `capacity` elements.
    pub closed spec fn wf(&self) -> bool {
        &&& self.allocator.inv()
        &&& self.buf@.len() <= self.cap
        &&& if vstd::layout::size_of::<T>() == 0 {
            self.cap == usize::MAX
        } else {
            self.cap != 0 ==> {
                &&& spec_repeat_ok(Layout::spec_new::<T>(), self.cap as int)
                &&& self.ptr.wf()
                &&& self.allocator.blocks().dom().contains(self.ptr.spec_addr() as int)
                &&& self.allocator.blocks()[self.ptr.spec_addr() as int].size
                    == vstd::layout::size_of::<T>() * self.cap
                &&& self.allocator.blocks()[self.ptr.spec_addr() as int].align
                    == vstd::layout::align_of::<T>()
                &&& self.allocator.blocks()[self.ptr.spec_addr() as int].bytes.len()
                    == vstd::layout::size_of::<T>() * self.cap
                &&& vstd::layout::size_of::<T>() * self.cap >= 1
            }
        }
    }

    /// Whether `reserve(additional)` succeeds in the current state: either
    /// enough capacity is already there, or the allocator can provide the
    /// grown block.
    pub closed spec fn reserve_succeeds(&self, additional: int) -> bool {
        if self.cap - self.buf@.len() >= additional {
            true
        } else {
            let new_cap = spec_grow_cap(self.buf@.len() as int, additional);
            let new_size = vstd::layout::size_of::<T>() * new_cap;
            let nl = Layout {
                size: new_size as usize,
                align: vstd::layout::align_of::<T>() as usize,
            };
            if self.cap == 0 {
                self.allocator.fits(nl)
            } else {
                self.allocator.can_grow(self.ptr.spec_addr() as int, new_size as nat)
                    || self.allocator.fits(nl)
            }
        }
    }

    /// An empty vector that will store through `allocator`. For zero-sized
    /// element types the capacity is unbounded, since no storage is ever
    /// needed.
    pub fn new(allocator: A) -> (r: Vec<T, A>)
        requires
            allocator.inv(),
        ensures
            r.wf(),
            r@ == Seq::<T>::empty(),
            r.spec_capacity() == (if vstd::layout::size_of::<T>() == 0 {
                usize::MAX
            } else {
                0
            }),
            r.spec_allocator() == allocator,
            r.blocks() == allocator.blocks(),
    {
        let cap = if core::mem::size_of::<T>() == 0 {
            usize::MAX
        } else {
            0
        };
        Vec { allocator, cap, ptr: Unique::empty(), buf: std::vec::Vec::new() }
    }

    /// Number of live elements.
    pub fn len(&self) -> (n: usize)
        ensures
            n == self@.len(),
    {
        self.buf.len()
    }

    /// Current capacity in elements.
    pub fn capacity(&self) -> (c: usize)
        ensures
            c == self.spec_capacity(),
    {
        self.cap
    }

    /// Read access to the element at `index`.
    pub fn get(&self, index: usize) -> (r: &T)
        requires
            self.wf(),
            index < self@.len(),
        ensures
            *r == self@[index as int],
    {
        &self.buf[index]
    }

    /// The elements as a slice.
    pub fn as_slice(&self) -> (s: &[T])
        ensures
            s@ == self@,
    {
        self.buf.as_slice()
    }

    /// Read access to the held allocator, for inspecting its block map.
    pub fn allocator_ref(&self) -> (a: &A)
        ensures
            *a == self.spec_allocator(),
    {
        &self.allocator
    }

    /// Tries to ensure room for `additional` more elements. A no-op when the
    /// spare capacity already suffices; otherwise grows to
    /// `max(2 * len, len + additional)` elements in one allocator request.
    /// Returns `false`, changing nothing, exactly when the capacity or layout
    /// arithmetic overflows or the allocator has no room.
    pub fn try_reserve(&mut self, additional: usize) -> (ok: bool)
        requires
            old(self).wf(),
        ensures
            final(self).wf(),
            final(self)@ == old(self)@,
            ok <==> (old(self).spec_capacity() - old(self)@.len() >= additional || (spec_grow_ok::<
                T,
            >(old(self)@.len() as int, additional as int) && old(self).reserve_succeeds(
                additional as int,
            ))),
            ok ==> final(self).spec_capacity() - final(self)@.len() >= additional,
            ok ==> final(self).spec_capacity() == (if old(self).spec_capacity() - old(self)@.len()
                >= additional {
                old(self).spec_capacity() as int
            } else {
                spec_grow_cap(old(self)@.len() as int, additional as int)
            }),
            !ok ==> *final(self) == *old(self),
            old(self).spec_capacity() - old(self)@.len() >= additional ==> *final(self) == *old(
                self,
            ),
    {
        if self.cap - self.buf.len() >= additional {
            return true;
        }
        if core::mem::size_of::<T>() == 0 {
            return false;
        }
        let len = self.buf.len();
        let new_cap = match amortized_new_capacity(len, additional) {
            Some(c) => c,
            None => {
                return false;
            },
        };
        let new_layout = match layout_array::<T>(new_cap) {
            Some(l) => l,
            None => {
                return false;
            },
        };
        proof {
            assert(new_layout.size as int == vstd::layout::size_of::<T>() * new_cap);
            assert(new_cap > self.cap);
            assert(vstd::layout::size_of::<T>() >= 1);
            vstd::arithmetic::mul::lemma_mul_inequality(
                self.cap as int,
                new_cap as int,
                vstd::layout::size_of::<T>() as int,
            );
            vstd::arithmetic::mul::lemma_mul_inequality(
                1,
                new_cap as int,
                vstd::layout::size_of::<T>() as int,
            );
            assert(vstd::layout::size_of::<T>() * (new_cap as int) == (new_cap as int)
                * vstd::layout::size_of::<T>()) by (nonlinear_arith);
            assert(vstd::layout::size_of::<T>() * (self.cap as int) == (self.cap as int)
                * vstd::layout::size_of::<T>()) by (nonlinear_arith);
            assert(1 <= new_layout.size);
        }
        let res = if self.cap == 0 {
            self.allocator.allocate(new_layout)
        } else {
            let cur_layout = match layout_array::<T>(self.cap) {
                Some(l) => l,
                None => vstd::pervasive::unreached(),
            };
            self.allocator.reallocate(self.ptr.addr(), cur_layout, new_layout.size)
        };
        let new_addr = match res {
            Ok(a) => a,
            Err(_) => {
                return false;
            },
        };
        self.ptr = match Unique::new(new_addr) {
            Some(u) => u,
            None => vstd::pervasive::unreached(),
        };
        self.cap = new_cap;
        true
    }

    /// Ensures room for `additional` more elements.
    ///
    /// Capacity or layout arithmetic overflow is a fatal programming error
    /// and allocator exhaustion with no remaining fallback is fatal as well,
    /// so both inputs are excluded rather than handled.
    pub fn reserve(&mut self, additional: usize)
        requires
            old(self).wf(),
            old(self).spec_capacity() - old(self)@.len() < additional ==> spec_grow_ok::<T>(
                old(self)@.len() as int,
                additional as int,
            ),
            old(self).reserve_succeeds(additional as int),
        ensures
            final(self).wf(),
            final(self)@ == old(self)@,
            final(self).spec_capacity() - final(self)@.len() >= additional,
            final(self).spec_capacity() == (if old(self).spec_capacity() - old(self)@.len()
                >= additional {
                old(self).spec_capacity() as int
            } else {
                spec_grow_cap(old(self)@.len() as int, additional as int)
            }),
            old(self).spec_capacity() - old(self)@.len() >= additional ==> *final(self) == *old(
                self,
            ),
    {
        if !self.try_reserve(additional) {
            vstd::pervasive::unreached()
        }
    }

    /// Tries to append `elem`, growing by one `try_reserve(1)` request when
    /// the vector is full. Hands `elem` back, changing nothing, exactly when
    /// that growth fails.
    pub fn try_push(&mut self, elem: T) -> (r: Result<(), T>)
        requires
            old(self).wf(),
        ensures
            final(self).wf(),
            match r {
                Ok(_) => final(self)@ == old(self)@.push(elem),
                Err(v) => v == elem && *final(self) == *old(self),
            },
            r is Ok <==> (old(self)@.len() < old(self).spec_capacity() || (spec_grow_ok::<T>(
                old(self)@.len() as int,
                1,
            ) && old(self).reserve_succeeds(1))),
            r is Ok ==> final(self)@.len() <= final(self).spec_capacity(),
            old(self)@.len() < old(self).spec_capacity() ==> {
                &&& final(self).spec_capacity() == old(self).spec_capacity()
                &&& final(self).spec_allocator() == old(self).spec_allocator()
            },
            r is Ok && old(self)@.len() == old(self).spec_capacity() ==> final(self).spec_capacity()
                == spec_grow_cap(old(self)@.len() as int, 1),
    {
        if self.buf.len() == self.cap {
            if !self.try_reserve(1) {
                return Err(elem);
            }
        }
        self.buf.push(elem);
        Ok(())
    }

    /// Appends `elem`, growing by one `reserve(1)` request when the vector is
    /// full.
    pub fn push(&mut self, elem: T)
        requires
            old(self).wf(),
            old(self)@.len() == old(self).spec_capacity() ==> spec_grow_ok::<T>(
                old(self)@.len() as int,
                1,
            ),
            old(self).reserve_succeeds(1),
        ensures
            final(self).wf(),
            final(self)@ == old(self)@.push(elem),
            final(self)@.len() <= final(self).spec_capacity(),
            old(self)@.len() < old(self).spec_capacity() ==> {
                &&& final(self).spec_capacity() == old(self).spec_capacity()
                &&& final(self).spec_allocator() == old(self).spec_allocator()
            },
            old(self)@.len() == old(self).spec_capacity() ==> final(self).spec_capacity()
                == spec_grow_cap(old(self)@.len() as int, 1),
    {
        if self.buf.len() == self.cap {
            self.reserve(1);
        }
        self.buf.push(elem);
    }

    /// Removes and returns the element at `index` in constant time by moving
    /// the last element into its place. Does not preserve the order of the
    /// remaining elements.
    pub fn swap_remove(&mut self, index: usize) -> (r: T)
        requires
            old(self).wf(),
            index < old(self)@.len(),
        ensures
            final(self).wf(),
            r == old(self)@[index as int],
            final(self)@ == old(self)@.update(index as int, old(self)@.last()).drop_last(),
            final(self).spec_capacity() == old(self).spec_capacity(),
            final(self).spec_allocator() == old(self).spec_allocator(),
    {
        self.buf.swap_remove(index)
    }
}

} // verus!
