//! A watermark arena: one pluggable implementation of the allocator
//! capability, backed by a single fixed byte buffer.
//!
//! Blocks are carved out of the buffer in address order. The block that ends
//! at the watermark can grow in place; every block can shrink in place; the
//! memory of released blocks is not reused. The point of this strategy is not
//! allocation quality but a small, fully verified implementation of the
//! [`Alloc`] capability, usable wherever an allocator instance is needed.

use vstd::prelude::*;

use crate::allocator::{Alloc, AllocError, Block};
use crate::layout::{align_offset, lemma_pow2_pos, spec_align_up, Layout};

verus! {

/// Bookkeeping for one live block.
#[derive(Clone, Copy)]
struct Entry {
    addr: usize,
    size: usize,
    align: usize,
}

/// A fixed-capacity watermark allocator.
///
/// Addresses are offsets into the backing buffer; offset `0` is never handed
/// out, so block addresses are nonzero.
pub struct Arena {
    mem: Vec<u8>,
    top: usize,
    table: Vec<Entry>,
    model: Ghost<Map<int, Block>>,
}

impl Arena {
    /// The given entry agrees with the specification-level block map.
    spec fn entry_ok(self, e: Entry) -> bool {
        &&& 1 <= e.addr
        &&& 1 <= e.size
        &&& e.addr < self.top
        &&& e.addr + e.size <= self.top
        &&& self.model@.dom().contains(e.addr as int)
        &&& self.model@[e.addr as int] == (Block {
            size: e.size as nat,
            align: e.align as nat,
            bytes: self.mem@.subrange(e.addr as int, e.addr + e.size),
        })
    }

    /// Internal invariant: the table, the watermark and the block map agree,
    /// and live blocks occupy pairwise disjoint ranges of the buffer.
    pub closed spec fn wf(self) -> bool {
        &&& 1 <= self.top <= self.mem@.len()
        &&& forall|i: int| 0 <= i < self.table@.len() ==> self.entry_ok(#[trigger] self.table@[i])
        &&& forall|i: int, j: int|
            0 <= i < j < self.table@.len() ==> ((#[trigger] self.table@[i]).addr
                + self.table@[i].size <= (#[trigger] self.table@[j]).addr || self.table@[j].addr
                + self.table@[j].size <= self.table@[i].addr)
        &&& forall|a: int|
            self.model@.dom().contains(a) ==> exists|i: int|
                0 <= i < self.table@.len() && (#[trigger] self.table@[i]).addr == a
    }

    /// Total number of usable bytes, as a specification-level value.
    pub closed spec fn spec_capacity(self) -> int {
        self.mem@.len() - 1
    }

    /// Builds an arena over a fresh zeroed buffer of `capacity` usable bytes.
    pub fn new(capacity: usize) -> (r: Arena)
        requires
            capacity < usize::MAX,
        ensures
            r.wf(),
            r.blocks() == Map::<int, Block>::empty(),
            r.spec_capacity() == capacity,
    {
        let r = Arena {
            mem: vec![0u8; capacity + 1],
            top: 1,
            table: Vec::new(),
            model: Ghost(Map::empty()),
        };
        proof {
            assert forall|a: int| r.model@.dom().contains(a) implies exists|i: int|
                0 <= i < r.table@.len() && (#[trigger] r.table@[i]).addr == a by {
                assert(!r.model@.dom().contains(a));
            }
        }
        r
    }

    /// Number of live blocks.
    pub fn block_count(&self) -> (n: usize)
        requires
            self.wf(),
        ensures
            self.blocks().dom().finite(),
            n == self.blocks().dom().len(),
    {
        proof {
            lemma_table_counts_blocks(*self);
        }
        self.table.len()
    }

    /// Index of the table entry that owns `addr`.
    fn find(&self, addr: usize) -> (i: usize)
        requires
            self.wf(),
            self.blocks().dom().contains(addr as int),
        ensures
            i < self.table@.len(),
            self.table@[i as int].addr == addr,
    {
        let n = self.table.len();
        let mut i: usize = 0;
        while i < n
            invariant
                self.wf(),
                self.blocks().dom().contains(addr as int),
                n == self.table@.len(),
                i <= n,
                forall|j: int| 0 <= j < i ==> (#[trigger] self.table@[j]).addr != addr,
            decreases n - i,
        {
            if self.table[i].addr == addr {
                return i;
            }
            i += 1;
        }
        proof {
            let k = choose|k: int|
                0 <= k < self.table@.len() && (#[trigger] self.table@[k]).addr == addr as int;
            assert(self.table@[k].addr != addr);
        }
        vstd::pervasive::unreached()
    }

    /// Reads one byte of the block at `addr`.
    pub fn read_byte(&self, addr: usize, offset: usize) -> (b: u8)
        requires
            self.wf(),
            self.blocks().dom().contains(addr as int),
            offset < self.blocks()[addr as int].size,
        ensures
            b == self.blocks()[addr as int].bytes[offset as int],
    {
        let i = self.find(addr);
        proof {
            assert(self.entry_ok(self.table@[i as int]));
        }
        self.mem[addr + offset]
    }

    /// Writes one byte of the block at `addr`.
    pub fn write_byte(&mut self, addr: usize, offset: usize, b: u8)
        requires
            old(self).wf(),
            old(self).blocks().dom().contains(addr as int),
            offset < old(self).blocks()[addr as int].size,
        ensures
            final(self).wf(),
            final(self).blocks() == old(self).blocks().insert(
                addr as int,
                final(self).blocks()[addr as int],
            ),
            final(self).blocks()[addr as int] == (Block {
                size: old(self).blocks()[addr as int].size,
                align: old(self).blocks()[addr as int].align,
                bytes: old(self).blocks()[addr as int].bytes.update(offset as int, b),
            }),
    {
        let ghost pre = *self;
        let i = self.find(addr);
        proof {
            assert(pre.entry_ok(pre.table@[i as int]));
        }
        let ghost e = self.table@[i as int];
        self.mem[addr + offset] = b;
        proof {
            let a = addr as int;
            let nb = Block {
                size: pre.blocks()[a].size,
                align: pre.blocks()[a].align,
                bytes: pre.blocks()[a].bytes.update(offset as int, b),
            };
            self.model = Ghost(pre.model@.insert(a, nb));
            assert(self.table@ == pre.table@);
            assert(self.mem@ == pre.mem@.update(a + offset, b));
            assert(self.mem@.subrange(e.addr as int, e.addr + e.size) =~= pre.blocks()[a].bytes.update(
                offset as int,
                b,
            ));
            assert forall|k: int|
                0 <= k < self.table@.len() implies self.entry_ok(#[trigger] self.table@[k]) by {
                let ek = pre.table@[k];
                assert(pre.entry_ok(ek));
                if ek.addr != addr {
                    lemma_distinct_addrs_rev(pre, k, i as int);
                    lemma_disjoint_entry(pre, k, i as int);
                    assert(self.mem@.subrange(ek.addr as int, ek.addr + ek.size) =~= pre.mem@.subrange(
                        ek.addr as int,
                        ek.addr + ek.size,
                    ));
                }
            }
            assert forall|x: int|
                self.model@.dom().contains(x) implies exists|k: int|
                0 <= k < self.table@.len() && (#[trigger] self.table@[k]).addr == x by {
                assert(pre.model@.dom().contains(x));
                let j = choose|j: int|
                    0 <= j < pre.table@.len() && (#[trigger] pre.table@[j]).addr == x;
                assert(self.table@[j].addr == x);
            }
            assert(self.blocks() =~= pre.blocks().insert(a, self.blocks()[a]));
        }
    }
}

/// Two table entries of a well-formed arena with distinct addresses occupy
/// disjoint ranges.
proof fn lemma_disjoint_entry(ar: Arena, i: int, j: int)
    requires
        ar.wf(),
        0 <= i < ar.table@.len(),
        0 <= j < ar.table@.len(),
        ar.table@[i].addr != ar.table@[j].addr,
    ensures
        ar.table@[i].addr + ar.table@[i].size <= ar.table@[j].addr || ar.table@[j].addr
            + ar.table@[j].size <= ar.table@[i].addr,
{
    assert(i != j);
    assert(ar.entry_ok(ar.table@[i]));
    assert(ar.entry_ok(ar.table@[j]));
}

/// In a well-formed arena, table entries at distinct indices have distinct
/// addresses.
proof fn lemma_distinct_addrs(ar: Arena, i: int, j: int)
    requires
        ar.wf(),
        0 <= i < ar.table@.len(),
        0 <= j < ar.table@.len(),
        i != j,
    ensures
        ar.table@[i].addr != ar.table@[j].addr,
{
    assert(ar.entry_ok(ar.table@[i]));
    assert(ar.entry_ok(ar.table@[j]));
}

/// Contrapositive direction: entries with distinct addresses sit at distinct
/// indices.
proof fn lemma_distinct_addrs_rev(ar: Arena, i: int, j: int)
    requires
        ar.wf(),
        0 <= i < ar.table@.len(),
        0 <= j < ar.table@.len(),
        ar.table@[i].addr != ar.table@[j].addr,
    ensures
        i != j,
{
}

/// In a well-formed arena the table has exactly one entry per live block, so
/// its length is the cardinality of the block map's domain.
proof fn lemma_table_counts_blocks(ar: Arena)
    requires
        ar.wf(),
    ensures
        ar.model@.dom().finite(),
        ar.model@.dom().len() == ar.table@.len(),
{
    broadcast use vstd::set::group_set_axioms;
    broadcast use vstd::seq_lib::seq_to_set_is_finite;

    let addrs = ar.table@.map_values(|e: Entry| e.addr as int);
    assert(addrs.no_duplicates()) by {
        assert forall|i: int, j: int|
            0 <= i < addrs.len() && 0 <= j < addrs.len() && i != j implies addrs[i] != addrs[j] by {
            lemma_distinct_addrs(ar, i, j);
        }
    }
    assert(ar.model@.dom() =~= addrs.to_set()) by {
        assert forall|a: int| ar.model@.dom().contains(a) implies addrs.to_set().contains(a) by {
            let i = choose|i: int|
                0 <= i < ar.table@.len() && (#[trigger] ar.table@[i]).addr == a;
            assert(addrs[i] == a);
        }
        assert forall|a: int| addrs.to_set().contains(a) implies ar.model@.dom().contains(a) by {
            let i = choose|i: int| 0 <= i < addrs.len() && addrs[i] == a;
            assert(ar.entry_ok(ar.table@[i]));
        }
    }
    addrs.unique_seq_to_set();
}

impl Alloc for Arena {
    open spec fn inv(&self) -> bool {
        self.wf()
    }

    closed spec fn blocks(&self) -> Map<int, Block> {
        self.model@
    }

    closed spec fn fits(&self, layout: Layout) -> bool {
        spec_align_up(self.top as int, layout.align as int) + layout.size <= self.mem@.len()
    }

    closed spec fn can_grow(&self, addr: int, new_size: nat) -> bool {
        &&& self.model@.dom().contains(addr)
        &&& addr + self.model@[addr].size == self.top
        &&& addr + new_size <= self.mem@.len()
    }

    closed spec fn can_shrink(&self, addr: int, new_size: nat) -> bool {
        self.model@.dom().contains(addr)
    }

    fn query_fits(&self, layout: Layout) -> (r: bool) {
        proof {
            lemma_pow2_pos(layout.align as int);
        }
        let cap = self.mem.len();
        let pad = align_offset(self.top, layout.align);
        match self.top.checked_add(pad) {
            Some(aligned) => match aligned.checked_add(layout.size) {
                Some(end) => end <= cap,
                None => false,
            },
            None => false,
        }
    }

    fn allocate(&mut self, layout: Layout) -> (r: Result<usize, AllocError>) {
        proof {
            lemma_pow2_pos(layout.align as int);
        }
        let cap = self.mem.len();
        let pad = align_offset(self.top, layout.align);
        let aligned = match self.top.checked_add(pad) {
            Some(v) => v,
            None => {
                return Err(AllocError);
            },
        };
        let end = match aligned.checked_add(layout.size) {
            Some(v) => v,
            None => {
                return Err(AllocError);
            },
        };
        if end > cap {
            return Err(AllocError);
        }
        let ghost pre = *self;
        let entry = Entry { addr: aligned, size: layout.size, align: layout.align };
        self.table.push(entry);
        self.top = end;
        proof {
            let a = aligned as int;
            let nb = Block {
                size: layout.size as nat,
                align: layout.align as nat,
                bytes: self.mem@.subrange(a, a + layout.size),
            };
            self.model = Ghost(pre.model@.insert(a, nb));
            assert(self.table@ == pre.table@.push(entry));
            // the new address lies at or above the old watermark, so it is fresh
            assert(!pre.model@.dom().contains(a)) by {
                if pre.model@.dom().contains(a) {
                    let k = choose|k: int|
                        0 <= k < pre.table@.len() && (#[trigger] pre.table@[k]).addr == a;
                    assert(pre.entry_ok(pre.table@[k]));
                }
            }
            assert forall|k: int|
                0 <= k < self.table@.len() implies self.entry_ok(#[trigger] self.table@[k]) by {
                if k < pre.table@.len() {
                    let ek = pre.table@[k];
                    assert(pre.entry_ok(ek));
                    assert(self.table@[k] == ek);
                    assert(ek.addr != a);
                } else {
                    assert(self.table@[k] == entry);
                }
            }
            assert forall|k1: int, k2: int|
                0 <= k1 < k2 < self.table@.len() implies ((#[trigger] self.table@[k1]).addr
                + self.table@[k1].size <= (#[trigger] self.table@[k2]).addr
                || self.table@[k2].addr + self.table@[k2].size <= self.table@[k1].addr) by {
                if k2 < pre.table@.len() {
                    assert(pre.table@[k1] == self.table@[k1]);
                    assert(pre.table@[k2] == self.table@[k2]);
                } else {
                    assert(pre.entry_ok(pre.table@[k1]));
                    assert(self.table@[k2] == entry);
                }
            }
            assert forall|x: int|
                self.model@.dom().contains(x) implies exists|k: int|
                0 <= k < self.table@.len() && (#[trigger] self.table@[k]).addr == x by {
                if x == a {
                    assert(self.table@[pre.table@.len() as int].addr == x);
                } else {
                    assert(pre.model@.dom().contains(x));
                    let j = choose|j: int|
                        0 <= j < pre.table@.len() && (#[trigger] pre.table@[j]).addr == x;
                    assert(self.table@[j].addr == x);
                }
            }
            assert(self.blocks() =~= pre.blocks().insert(a, self.blocks()[a]));
        }
        Ok(aligned)
    }

    fn deallocate(&mut self, addr: usize, layout: Layout) {
        let ghost pre = *self;
        let i = self.find(addr);
        self.table.swap_remove(i);
        proof {
            self.model = Ghost(pre.model@.remove(addr as int));
            assert forall|k: int|
                0 <= k < self.table@.len() implies self.entry_ok(#[trigger] self.table@[k]) by {
                let src: int = if k == i as int {
                    pre.table@.len() - 1
                } else {
                    k
                };
                assert(pre.entry_ok(pre.table@[src]));
                assert(self.table@[k] == pre.table@[src]);
                lemma_distinct_addrs(pre, src, i as int);
            }
            assert forall|k1: int, k2: int|
                0 <= k1 < k2 < self.table@.len() implies ((#[trigger] self.table@[k1]).addr
                + self.table@[k1].size <= (#[trigger] self.table@[k2]).addr
                || self.table@[k2].addr + self.table@[k2].size <= self.table@[k1].addr) by {
                let s1: int = if k1 == i as int {
                    pre.table@.len() - 1
                } else {
                    k1
                };
                let s2: int = if k2 == i as int {
                    pre.table@.len() - 1
                } else {
                    k2
                };
                assert(self.table@[k1] == pre.table@[s1]);
                assert(self.table@[k2] == pre.table@[s2]);
                lemma_distinct_addrs(pre, s1, s2);
                lemma_disjoint_entry(pre, s1, s2);
            }
            assert forall|x: int|
                self.model@.dom().contains(x) implies exists|k: int|
                0 <= k < self.table@.len() && (#[trigger] self.table@[k]).addr == x by {
                assert(pre.model@.dom().contains(x));
                assert(x != addr as int);
                let j = choose|j: int|
                    0 <= j < pre.table@.len() && (#[trigger] pre.table@[j]).addr == x;
                lemma_distinct_addrs_rev(pre, j, i as int);
                if j == pre.table@.len() - 1 {
                    assert(i < pre.table@.len() - 1);
                    assert(self.table@[i as int].addr == x);
                } else {
                    assert(self.table@[j].addr == x);
                }
            }
            assert(self.blocks() =~= pre.blocks().remove(addr as int));
        }
    }

    fn grow_in_place(&mut self, addr: usize, layout: Layout, new_size: usize) -> (r: Result<
        (),
        AllocError,
    >) {
        let cap = self.mem.len();
        let ghost pre = *self;
        let i = self.find(addr);
        let e = self.table[i];
        proof {
            assert(pre.entry_ok(pre.table@[i as int]));
        }
        if !(e.addr == self.top - e.size && new_size <= usize::MAX - e.addr && e.addr + new_size
            <= cap) {
            return Err(AllocError);
        }
        let updated = Entry { addr: e.addr, size: new_size, align: e.align };
        self.table[i] = updated;
        self.top = e.addr + new_size;
        proof {
            let a = addr as int;
            let nb = Block {
                size: new_size as nat,
                align: pre.model@[a].align,
                bytes: self.mem@.subrange(a, a + new_size),
            };
            self.model = Ghost(pre.model@.insert(a, nb));
            assert(self.table@ == pre.table@.update(i as int, updated));
            assert(self.model@.dom() =~= pre.model@.dom());
            assert forall|k: int|
                0 <= k < self.table@.len() implies self.entry_ok(#[trigger] self.table@[k]) by {
                if k != i as int {
                    let ek = pre.table@[k];
                    assert(pre.entry_ok(ek));
                    assert(self.table@[k] == ek);
                    lemma_distinct_addrs(pre, k, i as int);
                    lemma_disjoint_entry(pre, k, i as int);
                } else {
                    assert(self.table@[k] == updated);
                }
            }
            assert forall|k1: int, k2: int|
                0 <= k1 < k2 < self.table@.len() implies ((#[trigger] self.table@[k1]).addr
                + self.table@[k1].size <= (#[trigger] self.table@[k2]).addr
                || self.table@[k2].addr + self.table@[k2].size <= self.table@[k1].addr) by {
                assert(pre.entry_ok(pre.table@[k1]));
                assert(pre.entry_ok(pre.table@[k2]));
                if k1 == i as int {
                    lemma_disjoint_entry(pre, k2, i as int);
                } else if k2 == i as int {
                    lemma_disjoint_entry(pre, k1, i as int);
                }
            }
            assert forall|x: int|
                self.model@.dom().contains(x) implies exists|k: int|
                0 <= k < self.table@.len() && (#[trigger] self.table@[k]).addr == x by {
                assert(pre.model@.dom().contains(x));
                let j = choose|j: int|
                    0 <= j < pre.table@.len() && (#[trigger] pre.table@[j]).addr == x;
                assert(self.table@[j].addr == x);
            }
            assert(self.blocks() =~= pre.blocks().insert(a, self.blocks()[a]));
            assert(self.blocks()[a].bytes.subrange(0, layout.size as int) =~= pre.blocks()[a].bytes);
        }
        Ok(())
    }

    fn shrink_in_place(&mut self, addr: usize, layout: Layout, new_size: usize) -> (r: Result<
        (),
        AllocError,
    >) {
        let ghost pre = *self;
        let i = self.find(addr);
        let e = self.table[i];
        proof {
            assert(pre.entry_ok(pre.table@[i as int]));
        }
        let updated = Entry { addr: e.addr, size: new_size, align: e.align };
        self.table[i] = updated;
        proof {
            let a = addr as int;
            let nb = Block {
                size: new_size as nat,
                align: pre.model@[a].align,
                bytes: self.mem@.subrange(a, a + new_size),
            };
            self.model = Ghost(pre.model@.insert(a, nb));
            assert(self.table@ == pre.table@.update(i as int, updated));
            assert(self.model@.dom() =~= pre.model@.dom());
            assert forall|k: int|
                0 <= k < self.table@.len() implies self.entry_ok(#[trigger] self.table@[k]) by {
                if k != i as int {
                    let ek = pre.table@[k];
                    assert(pre.entry_ok(ek));
                    assert(self.table@[k] == ek);
                    lemma_distinct_addrs(pre, k, i as int);
                } else {
                    assert(self.table@[k] == updated);
                }
            }
            assert forall|k1: int, k2: int|
                0 <= k1 < k2 < self.table@.len() implies ((#[trigger] self.table@[k1]).addr
                + self.table@[k1].size <= (#[trigger] self.table@[k2]).addr
                || self.table@[k2].addr + self.table@[k2].size <= self.table@[k1].addr) by {
                assert(pre.entry_ok(pre.table@[k1]));
                assert(pre.entry_ok(pre.table@[k2]));
                if k1 == i as int {
                    lemma_disjoint_entry(pre, k2, i as int);
                } else if k2 == i as int {
                    lemma_disjoint_entry(pre, k1, i as int);
                }
            }
            assert forall|x: int|
                self.model@.dom().contains(x) implies exists|k: int|
                0 <= k < self.table@.len() && (#[trigger] self.table@[k]).addr == x by {
                assert(pre.model@.dom().contains(x));
                let j = choose|j: int|
                    0 <= j < pre.table@.len() && (#[trigger] pre.table@[j]).addr == x;
                assert(self.table@[j].addr == x);
            }
            assert(self.blocks() =~= pre.blocks().insert(a, self.blocks()[a]));
            assert(self.blocks()[a].bytes =~= pre.blocks()[a].bytes.subrange(0, new_size as int));
        }
        Ok(())
    }

    fn copy_bytes(&mut self, src: usize, dst: usize, count: usize) {
        let ghost pre = *self;
        let si = self.find(src);
        let se = self.table[si];
        let di = self.find(dst);
        let de = self.table[di];
        proof {
            assert(pre.entry_ok(pre.table@[si as int]));
            assert(pre.entry_ok(pre.table@[di as int]));
            lemma_distinct_addrs_rev(pre, si as int, di as int);
            lemma_disjoint_entry(pre, si as int, di as int);
        }
        let mut k: usize = 0;
        while k < count
            invariant
                k <= count,
                se == pre.table@[si as int],
                de == pre.table@[di as int],
                se.addr == src,
                de.addr == dst,
                count <= se.size,
                count <= de.size,
                pre.wf(),
                pre.entry_ok(se),
                pre.entry_ok(de),
                se.addr + se.size <= de.addr || de.addr + de.size <= se.addr,
                self.top == pre.top,
                self.table == pre.table,
                self.model == pre.model,
                self.mem@.len() == pre.mem@.len(),
                forall|x: int|
                    0 <= x < self.mem@.len() ==> self.mem@[x] == (if de.addr <= x < de.addr + k {
                        pre.mem@[se.addr + (x - de.addr)]
                    } else {
                        pre.mem@[x]
                    }),
            decreases count - k,
        {
            let b = self.mem[src + k];
            self.mem[dst + k] = b;
            k += 1;
        }
        proof {
            let s = src as int;
            let d = dst as int;
            let nb = Block {
                size: pre.model@[d].size,
                align: pre.model@[d].align,
                bytes: self.mem@.subrange(d, d + de.size),
            };
            self.model = Ghost(pre.model@.insert(d, nb));
            assert(self.table@ == pre.table@);
            assert(self.model@.dom() =~= pre.model@.dom());
            assert forall|kk: int|
                0 <= kk < self.table@.len() implies self.entry_ok(#[trigger] self.table@[kk]) by {
                let ek = pre.table@[kk];
                assert(pre.entry_ok(ek));
                if ek.addr != dst {
                    lemma_distinct_addrs_rev(pre, kk, di as int);
                    lemma_disjoint_entry(pre, kk, di as int);
                    assert(self.mem@.subrange(ek.addr as int, ek.addr + ek.size) =~= pre.mem@.subrange(
                        ek.addr as int,
                        ek.addr + ek.size,
                    ));
                }
            }
            assert forall|x: int|
                self.model@.dom().contains(x) implies exists|j: int|
                0 <= j < self.table@.len() && (#[trigger] self.table@[j]).addr == x by {
                assert(pre.model@.dom().contains(x));
                let j = choose|j: int|
                    0 <= j < pre.table@.len() && (#[trigger] pre.table@[j]).addr == x;
                assert(self.table@[j].addr == x);
            }
            assert(self.blocks() =~= pre.blocks().insert(d, self.blocks()[d]));
            assert(self.blocks()[d].bytes.subrange(0, count as int) =~= pre.blocks()[s].bytes.subrange(
                0,
                count as int,
            ));
            assert(self.blocks()[d].bytes.skip(count as int) =~= pre.blocks()[d].bytes.skip(
                count as int,
            ));
        }
    }
}

} // verus!
