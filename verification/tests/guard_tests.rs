use tm_runtime::allocator::Alloc;
use tm_runtime::arena::Arena;
use tm_runtime::coroutine::Yields;
use tm_runtime::executor::{BoundedVec, Executor};
use tm_runtime::guard::{Guarded, Private};
use tm_runtime::layout::Layout;

// Register values as the execution-context check reads them: the low byte is
// the number of the currently active exception, zero meaning thread context.
const THREAD_MODE: u32 = 0;
const IN_SYSTICK: u32 = 0x0000_000F;
const IN_HARD_FAULT: u32 = 0x0000_0003;

#[test]
fn token_granted_only_in_thread_context() {
    assert!(Private::get(THREAD_MODE).is_some());
    assert!(Private::get(IN_SYSTICK).is_none());
    assert!(Private::get(IN_HARD_FAULT).is_none());
}

#[test]
fn guarded_allocator_unreachable_from_interrupt_context() {
    let mut cell: Guarded<Arena> = Guarded::new();
    let token = Private::get(THREAD_MODE).unwrap();
    assert!(cell.init(token, Arena::new(256)).is_none());

    // under simulated interrupt context no token exists, so the allocator's
    // operations cannot even be named; all that can be observed is the
    // absence of the capability
    assert!(Private::get(IN_SYSTICK).is_none());

    // with the token, the allocator is usable
    let a = cell.borrow_mut(token);
    assert!(a.allocate(Layout { size: 8, align: 1 }).is_ok());
}

#[test]
fn initialization_runs_at_most_once() {
    let mut cell: Guarded<u64> = Guarded::new();
    let token = Private::get(THREAD_MODE).unwrap();
    assert!(!cell.is_initialized(token));
    assert_eq!(cell.init(token, 5), None);
    assert!(cell.is_initialized(token));
    // a second initialization is rejected and the held instance kept
    assert_eq!(cell.init(token, 9), Some(9));
    assert_eq!(*cell.borrow(token), 5);
}

#[test]
fn token_is_copyable() {
    let token = Private::get(THREAD_MODE).unwrap();
    let token2 = token;
    let mut cell: Guarded<u8> = Guarded::new();
    cell.init(token, 1);
    assert!(cell.is_initialized(token2));
}

/// A minimal task shape for the guarded-scheduler test.
struct Idle;

impl tm_runtime::coroutine::Coroutine for Idle {
    type Return = ();
    type Task = Idle;

    fn resume(&mut self) -> tm_runtime::coroutine::Step<(), Idle> {
        tm_runtime::coroutine::Step::yielded()
    }
}

#[test]
fn guarded_executor_singleton() {
    let token = Private::get(THREAD_MODE).unwrap();
    let mut cell: Guarded<Executor<BoundedVec<Idle>>> = Guarded::new();
    assert!(cell.init(token, Executor::with_max_tasks(4)).is_none());
    let ex = cell.borrow_mut(token);
    let main: Yields<u8, Idle> = Yields::new(1, 3);
    assert_eq!(ex.block_on(main), Some(3));
}
