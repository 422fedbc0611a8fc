use std::cell::Cell;

use tm_runtime::arena::Arena;
use tm_runtime::boxed::Box;
use tm_runtime::rc::{Rc, RcHeap};
use tm_runtime::vec::{amortized_new_capacity, Vec};

/// A value whose cleanup increments a shared counter, to observe that
/// destruction runs it exactly once.
struct DropCounter {
    hits: std::rc::Rc<Cell<u32>>,
}

impl Drop for DropCounter {
    fn drop(&mut self) {
        self.hits.set(self.hits.get() + 1);
    }
}

#[test]
fn vec_push_keeps_every_element() {
    let arena = Arena::new(65536);
    let mut v: Vec<u64, Arena> = Vec::new(arena);
    assert_eq!(v.len(), 0);
    assert_eq!(v.capacity(), 0);
    for i in 0..100u64 {
        v.push(i * 3);
    }
    assert_eq!(v.len(), 100);
    for i in 0..100usize {
        assert_eq!(*v.get(i), (i as u64) * 3);
    }
    // every superseded backing block was released: exactly one block is live
    assert_eq!(v.allocator_ref().block_count(), 1);
    let s = v.as_slice();
    assert_eq!(s.len(), 100);
    assert_eq!(s[41], 123);
}

#[test]
fn vec_reserve_then_pushes_do_not_allocate() {
    let arena = Arena::new(65536);
    let mut v: Vec<u8, Arena> = Vec::new(arena);
    v.reserve(10);
    let cap = v.capacity();
    assert!(cap >= 10);
    for i in 0..10u8 {
        v.push(i);
    }
    // no further allocation: the capacity (hence the backing block) is unchanged
    assert_eq!(v.capacity(), cap);
    assert_eq!(v.len(), 10);
}

#[test]
fn vec_growth_doubles() {
    let arena = Arena::new(65536);
    let mut v: Vec<u16, Arena> = Vec::new(arena);
    let mut caps = std::vec::Vec::new();
    for i in 0..100u16 {
        v.push(i);
        if caps.last() != Some(&v.capacity()) {
            caps.push(v.capacity());
        }
    }
    // capacities 1, 2, 4, ..., 128: logarithmically many reallocations
    assert_eq!(caps, vec![1, 2, 4, 8, 16, 32, 64, 128]);
}

#[test]
fn amortized_capacity_values() {
    assert_eq!(amortized_new_capacity(0, 1), Some(1));
    assert_eq!(amortized_new_capacity(1, 1), Some(2));
    assert_eq!(amortized_new_capacity(8, 1), Some(16));
    assert_eq!(amortized_new_capacity(3, 10), Some(13));
    assert_eq!(amortized_new_capacity(usize::MAX, 1), None);
    assert_eq!(amortized_new_capacity(1, usize::MAX), None);
}

#[test]
fn vec_swap_remove_moves_last_into_hole() {
    let arena = Arena::new(65536);
    let mut v: Vec<u64, Arena> = Vec::new(arena);
    for x in [10u64, 20, 30, 40] {
        v.push(x);
    }
    let removed = v.swap_remove(1);
    assert_eq!(removed, 20);
    assert_eq!(v.len(), 3);
    assert_eq!(*v.get(0), 10);
    assert_eq!(*v.get(1), 40);
    assert_eq!(*v.get(2), 30);
}

#[test]
fn vec_swap_remove_last_element() {
    let arena = Arena::new(65536);
    let mut v: Vec<u64, Arena> = Vec::new(arena);
    v.push(7);
    let removed = v.swap_remove(0);
    assert_eq!(removed, 7);
    assert_eq!(v.len(), 0);
}

#[test]
fn vec_zero_sized_elements_never_allocate() {
    let arena = Arena::new(1);
    let mut v: Vec<(), Arena> = Vec::new(arena);
    assert_eq!(v.capacity(), usize::MAX);
    for _ in 0..1000 {
        v.push(());
    }
    assert_eq!(v.len(), 1000);
    assert_eq!(v.capacity(), usize::MAX);
}

#[test]
fn box_runs_cleanup_exactly_once_before_release() {
    let hits = std::rc::Rc::new(Cell::new(0u32));
    let arena = Arena::new(4096);
    let b = Box::new(DropCounter { hits: hits.clone() }, arena);
    assert_eq!(hits.get(), 0);
    let arena = b.free();
    // cleanup ran exactly once and the block was released exactly once
    assert_eq!(hits.get(), 1);
    assert_eq!(arena.block_count(), 0);
}

#[test]
fn box_get_and_get_mut() {
    let arena = Arena::new(4096);
    let mut b = Box::new(41u64, arena);
    assert_eq!(*b.get(), 41);
    *b.get_mut() += 1;
    assert_eq!(*b.get(), 42);
    b.free();
}

#[test]
fn box_zero_sized_value_uses_no_storage() {
    // an arena of one byte can build any number of zero-sized boxes in turn
    let mut arena = Arena::new(1);
    for _ in 0..4 {
        let b = Box::new((), arena);
        assert_eq!(*b.get(), ());
        arena = b.free();
    }
}

#[test]
fn rc_clone_then_drop_restores_count() {
    let arena = Arena::new(4096);
    let mut heap: RcHeap<u64, Arena> = RcHeap::new(arena);
    let rc = Rc::new(5u64, &mut heap);
    assert_eq!(Rc::strong_count(&rc, &heap), 1);
    let c = rc.clone_in(&mut heap);
    assert_eq!(Rc::strong_count(&rc, &heap), 2);
    assert_eq!(*c.get(&heap), 5);
    c.drop_in(&mut heap);
    assert_eq!(Rc::strong_count(&rc, &heap), 1);
    rc.drop_in(&mut heap);
}

#[test]
fn rc_last_drop_runs_cleanup_exactly_once() {
    let hits = std::rc::Rc::new(Cell::new(0u32));
    let arena = Arena::new(4096);
    let mut heap: RcHeap<DropCounter, Arena> = RcHeap::new(arena);
    let a = Rc::new(DropCounter { hits: hits.clone() }, &mut heap);
    let b = a.clone_in(&mut heap);
    let c = b.clone_in(&mut heap);
    assert_eq!(Rc::strong_count(&a, &heap), 3);
    b.drop_in(&mut heap);
    assert_eq!(hits.get(), 0);
    a.drop_in(&mut heap);
    assert_eq!(hits.get(), 0);
    assert_eq!(Rc::strong_count(&c, &heap), 1);
    assert_eq!(heap.allocator_ref().block_count(), 1);
    c.drop_in(&mut heap);
    // the last handle ran the cleanup exactly once and released the one block
    assert_eq!(hits.get(), 1);
    assert_eq!(heap.allocator_ref().block_count(), 0);
}

#[test]
fn rc_handles_are_independent_cells() {
    let arena = Arena::new(4096);
    let mut heap: RcHeap<u32, Arena> = RcHeap::new(arena);
    let x = Rc::new(1u32, &mut heap);
    let y = Rc::new(2u32, &mut heap);
    let x2 = x.clone_in(&mut heap);
    assert_eq!(Rc::strong_count(&x, &heap), 2);
    assert_eq!(Rc::strong_count(&y, &heap), 1);
    assert_eq!(*x2.get(&heap), 1);
    assert_eq!(*y.get(&heap), 2);
    x.drop_in(&mut heap);
    x2.drop_in(&mut heap);
    assert_eq!(Rc::strong_count(&y, &heap), 1);
    y.drop_in(&mut heap);
}

#[test]
fn rc_heap_reports_room() {
    let mut heap: RcHeap<u64, Arena> = RcHeap::new(Arena::new(4096));
    assert!(heap.has_room());
    let rc = Rc::new(1u64, &mut heap);
    rc.drop_in(&mut heap);

    // an arena of one byte cannot hold a counted cell
    let full: RcHeap<u64, Arena> = RcHeap::new(Arena::new(1));
    assert!(!full.has_room());
}
