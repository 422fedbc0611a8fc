use tm_runtime::allocator::Alloc;
use tm_runtime::arena::Arena;
use tm_runtime::layout::{layout_array, padding_needed_for, Layout};
use tm_runtime::unique::Unique;

#[test]
fn layout_of_primitive_types() {
    let l = Layout::new::<u64>();
    assert_eq!(l.size, 8);
    assert_eq!(l.align, 8);
    let l = Layout::new::<u8>();
    assert_eq!(l.size, 1);
    assert_eq!(l.align, 1);
    let l = Layout::new::<()>();
    assert_eq!(l.size, 0);
}

#[test]
fn padding_rounds_to_alignment() {
    assert_eq!(padding_needed_for(&Layout { size: 5, align: 1 }, 4), 3);
    assert_eq!(padding_needed_for(&Layout { size: 8, align: 8 }, 8), 0);
    assert_eq!(padding_needed_for(&Layout { size: 1, align: 1 }, 16), 15);
    assert_eq!(padding_needed_for(&Layout { size: 0, align: 1 }, 2), 0);
}

#[test]
fn layout_array_multiplies_padded_size() {
    let l = layout_array::<u32>(10).unwrap();
    assert_eq!(l.size, 40);
    assert_eq!(l.align, 4);
    // element count too large to represent
    assert!(layout_array::<u64>(usize::MAX / 4).is_none());
}

#[test]
fn allocate_respects_alignment_and_is_fresh() {
    let mut a = Arena::new(1024);
    let l8 = Layout { size: 10, align: 8 };
    let p = a.allocate(l8).unwrap();
    assert_eq!(p % 8, 0);
    assert_ne!(p, 0);
    let q = a.allocate(l8).unwrap();
    assert_ne!(p, q);
    assert_eq!(q % 8, 0);
}

#[test]
fn allocate_fails_without_room_and_leaves_state_intact() {
    let mut a = Arena::new(64);
    let too_big = Layout { size: 1000, align: 1 };
    assert!(a.allocate(too_big).is_err());
    // the failure had no side effect: a smaller request still succeeds
    let small = Layout { size: 16, align: 1 };
    assert!(a.allocate(small).is_ok());
}

#[test]
fn bytes_are_stored_and_read_back() {
    let mut a = Arena::new(256);
    let l = Layout { size: 4, align: 1 };
    let p = a.allocate(l).unwrap();
    for i in 0..4 {
        a.write_byte(p, i, (i as u8) + 10);
    }
    for i in 0..4 {
        assert_eq!(a.read_byte(p, i), (i as u8) + 10);
    }
}

#[test]
fn grow_in_place_only_for_the_top_block() {
    let mut a = Arena::new(256);
    let l = Layout { size: 8, align: 1 };
    let p = a.allocate(l).unwrap();
    let q = a.allocate(l).unwrap();
    // p is no longer the top block, so it cannot grow in place
    assert!(a.grow_in_place(p, l, 16).is_err());
    // the top block can
    assert!(a.grow_in_place(q, l, 16).is_ok());
}

#[test]
fn reallocate_grow_without_in_place_moves_and_preserves_bytes() {
    let mut a = Arena::new(1024);
    let l = Layout { size: 4, align: 1 };
    let p = a.allocate(l).unwrap();
    for i in 0..4 {
        a.write_byte(p, i, 0xA0 + (i as u8));
    }
    // a second block sits on top, so growing p in place must fail and the
    // reallocation falls back to allocate + copy + release
    let _q = a.allocate(l).unwrap();
    let r = a.reallocate(p, l, 32).unwrap();
    assert_ne!(r, p);
    for i in 0..4 {
        assert_eq!(a.read_byte(r, i), 0xA0 + (i as u8));
    }
}

#[test]
fn reallocate_grow_in_place_keeps_the_handle() {
    let mut a = Arena::new(1024);
    let l = Layout { size: 4, align: 1 };
    let p = a.allocate(l).unwrap();
    a.write_byte(p, 0, 7);
    let r = a.reallocate(p, l, 64).unwrap();
    assert_eq!(r, p);
    assert_eq!(a.read_byte(r, 0), 7);
}

#[test]
fn reallocate_shrink_keeps_prefix() {
    let mut a = Arena::new(1024);
    let l = Layout { size: 8, align: 1 };
    let p = a.allocate(l).unwrap();
    for i in 0..8 {
        a.write_byte(p, i, i as u8);
    }
    let r = a.reallocate(p, l, 3).unwrap();
    assert_eq!(r, p);
    for i in 0..3 {
        assert_eq!(a.read_byte(r, i), i as u8);
    }
}

#[test]
fn reallocate_failure_leaves_original_intact() {
    let mut a = Arena::new(64);
    let l = Layout { size: 8, align: 1 };
    let p = a.allocate(l).unwrap();
    a.write_byte(p, 0, 42);
    let _q = a.allocate(l).unwrap();
    // p cannot grow in place (not on top) and no room remains for a copy
    assert!(a.reallocate(p, l, 60).is_err());
    assert_eq!(a.read_byte(p, 0), 42);
}

#[test]
fn deallocate_then_allocate_still_works() {
    let mut a = Arena::new(256);
    let l = Layout { size: 16, align: 2 };
    let p = a.allocate(l).unwrap();
    a.deallocate(p, l);
    let q = a.allocate(l).unwrap();
    assert_ne!(q, 0);
}

#[test]
fn unique_is_never_null() {
    assert!(Unique::<u32>::new(0).is_none());
    let u = Unique::<u32>::new(16).unwrap();
    assert_eq!(u.addr(), 16);
    let e: Unique<u64> = Unique::empty();
    assert_eq!(e.addr(), 8);
}

#[test]
fn query_fits_predicts_allocate() {
    let mut a = Arena::new(64);
    let l = Layout { size: 32, align: 4 };
    assert!(a.query_fits(l));
    assert!(a.allocate(l).is_ok());
    // after the first block there is no room for a second of the same size
    assert!(!a.query_fits(l));
    assert!(a.allocate(l).is_err());
}
