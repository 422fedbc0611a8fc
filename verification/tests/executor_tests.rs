use std::cell::Cell;
use std::rc::Rc as StdRc;

use tm_runtime::arena::Arena;
use tm_runtime::coroutine::{AsTask, Coroutine, CoroutineState, Discard, Step, Yields};
use tm_runtime::executor::{BoundedVec, Executor};
use tm_runtime::vec::Vec;

/// A spawned task for these tests: counts its resumes, optionally completes
/// after a fixed number of yields, and may hand new tasks to the scheduler
/// during its first resume.
struct Task {
    hits: StdRc<Cell<u32>>,
    steps_left: Option<u32>,
    spawn_on_first: std::vec::Vec<Task>,
    resumed: bool,
}

impl Task {
    fn forever(hits: &StdRc<Cell<u32>>) -> Task {
        Task { hits: hits.clone(), steps_left: None, spawn_on_first: std::vec::Vec::new(), resumed: false }
    }

    fn finite(hits: &StdRc<Cell<u32>>, yields: u32) -> Task {
        Task {
            hits: hits.clone(),
            steps_left: Some(yields),
            spawn_on_first: std::vec::Vec::new(),
            resumed: false,
        }
    }

    fn spawner(hits: &StdRc<Cell<u32>>, children: std::vec::Vec<Task>) -> Task {
        Task { hits: hits.clone(), steps_left: None, spawn_on_first: children, resumed: false }
    }
}

impl Coroutine for Task {
    type Return = ();
    type Task = Task;

    fn resume(&mut self) -> Step<(), Task> {
        self.hits.set(self.hits.get() + 1);
        let spawned = if self.resumed {
            std::vec::Vec::new()
        } else {
            self.resumed = true;
            std::mem::take(&mut self.spawn_on_first)
        };
        let state = match &mut self.steps_left {
            None => CoroutineState::Yielded,
            Some(0) => CoroutineState::Complete(()),
            Some(k) => {
                *k -= 1;
                CoroutineState::Yielded
            },
        };
        Step { state, spawned }
    }
}

fn growable() -> Executor<Vec<Task, Arena>> {
    Executor::new(Arena::new(65536))
}

#[test]
fn block_on_returns_the_main_result() {
    let mut ex = growable();
    let main: Yields<i32, Task> = Yields::new(2, 42);
    assert_eq!(ex.block_on(main), Some(42));
    assert_eq!(ex.task_count(), 0);
}

#[test]
fn one_pass_runs_after_every_yield() {
    // a main coroutine that yields twice drives exactly two passes
    let hits = StdRc::new(Cell::new(0));
    let mut ex = growable();
    ex.spawn(Task::forever(&hits));
    let main: Yields<i32, Task> = Yields::new(2, 42);
    assert_eq!(ex.block_on(main), Some(42));
    assert_eq!(hits.get(), 2);
}

#[test]
fn each_task_runs_exactly_once_per_pass() {
    let a = StdRc::new(Cell::new(0));
    let b = StdRc::new(Cell::new(0));
    let mut ex = growable();
    ex.spawn(Task::forever(&a));
    ex.spawn(Task::forever(&b));
    let main: Yields<(), Task> = Yields::new(1, ());
    assert_eq!(ex.block_on(main), Some(()));
    assert_eq!(a.get(), 1);
    assert_eq!(b.get(), 1);
    assert_eq!(ex.task_count(), 2);
}

#[test]
fn completed_tasks_are_removed() {
    let a = StdRc::new(Cell::new(0));
    let b = StdRc::new(Cell::new(0));
    let mut ex = growable();
    ex.spawn(Task::finite(&a, 1));
    ex.spawn(Task::forever(&b));
    let main: Yields<(), Task> = Yields::new(3, ());
    assert_eq!(ex.block_on(main), Some(()));
    // the finite task yielded once, completed on its second resume, and was
    // dropped; the forever task ran in all three passes
    assert_eq!(a.get(), 2);
    assert_eq!(b.get(), 3);
    assert_eq!(ex.task_count(), 1);
}

#[test]
fn task_spawned_mid_pass_is_not_resumed_nor_skips_others() {
    let c = StdRc::new(Cell::new(0));
    let d = StdRc::new(Cell::new(0));
    let s = StdRc::new(Cell::new(0));
    let mut ex = growable();
    ex.spawn(Task::forever(&d));
    let mut children = std::vec::Vec::new();
    children.push(Task::forever(&c));
    ex.spawn(Task::spawner(&s, children));
    let main: Yields<(), Task> = Yields::new(1, ());
    assert_eq!(ex.block_on(main), Some(()));
    // during the single pass the spawner added a new task; the new task was
    // not resumed in that pass, and no task present at pass start was skipped
    // or resumed twice
    assert_eq!(s.get(), 1);
    assert_eq!(d.get(), 1);
    assert_eq!(c.get(), 0);
    assert_eq!(ex.task_count(), 3);

    // in the next pass the new task runs like any other
    let main: Yields<(), Task> = Yields::new(1, ());
    assert_eq!(ex.block_on(main), Some(()));
    assert_eq!(s.get(), 2);
    assert_eq!(d.get(), 2);
    assert_eq!(c.get(), 1);
}

#[test]
fn fixed_capacity_variant_schedules_the_same_way() {
    let a = StdRc::new(Cell::new(0));
    let b = StdRc::new(Cell::new(0));
    let mut ex: Executor<BoundedVec<Task>> = Executor::with_max_tasks(2);
    ex.spawn(Task::forever(&a));
    ex.spawn(Task::forever(&b));
    let main: Yields<(), Task> = Yields::new(1, ());
    assert_eq!(ex.block_on(main), Some(()));
    assert_eq!(a.get(), 1);
    assert_eq!(b.get(), 1);
}

#[test]
fn fixed_capacity_rejects_tasks_beyond_the_bound() {
    let h = StdRc::new(Cell::new(0));
    let mut ex: Executor<BoundedVec<Task>> = Executor::with_max_tasks(2);
    assert!(ex.try_spawn(Task::forever(&h)).is_ok());
    assert!(ex.try_spawn(Task::forever(&h)).is_ok());
    assert!(ex.try_spawn(Task::forever(&h)).is_err());
    assert_eq!(ex.task_count(), 2);
}

#[test]
fn main_coroutine_runs_before_any_task_each_cycle() {
    // with no yields at all, no pass runs: a spawned task is never resumed
    let h = StdRc::new(Cell::new(0));
    let mut ex = growable();
    ex.spawn(Task::forever(&h));
    let main: Yields<u8, Task> = Yields::new(0, 9);
    assert_eq!(ex.block_on(main), Some(9));
    assert_eq!(h.get(), 0);
}

/// A computation that completes immediately with a droppable value.
struct Produce {
    out: Option<DropCounter>,
}

struct DropCounter {
    hits: StdRc<Cell<u32>>,
}

impl Drop for DropCounter {
    fn drop(&mut self) {
        self.hits.set(self.hits.get() + 1);
    }
}

impl Coroutine for Produce {
    type Return = DropCounter;
    type Task = Task;

    fn resume(&mut self) -> Step<DropCounter, Task> {
        Step::complete(self.out.take().unwrap())
    }
}

#[test]
fn discard_drops_the_completion_value() {
    let hits = StdRc::new(Cell::new(0));
    let inner = Produce { out: Some(DropCounter { hits: hits.clone() }) };
    let mut task = Discard::new(inner);
    let step = task.resume();
    assert!(matches!(step.state, CoroutineState::Complete(())));
    assert_eq!(hits.get(), 1);
}

#[test]
fn as_task_adapts_a_bounded_computation() {
    let y: Yields<u8, Task> = Yields::new(1, 5);
    let mut t = AsTask::new(y);
    assert!(matches!(t.resume().state, CoroutineState::Yielded));
    match t.resume().state {
        CoroutineState::Complete(v) => assert_eq!(v, 5),
        CoroutineState::Yielded => panic!("expected completion"),
    }
}

#[test]
fn step_helpers_carry_their_state() {
    let y: Step<u8, Task> = Step::yielded();
    assert!(matches!(y.state, CoroutineState::Yielded));
    assert_eq!(y.spawned.len(), 0);
    let c: Step<u8, Task> = Step::complete(3);
    assert!(matches!(c.state, CoroutineState::Complete(3)));
    let hits = StdRc::new(Cell::new(0));
    let mut tasks = std::vec::Vec::new();
    tasks.push(Task::forever(&hits));
    let s: Step<u8, Task> = Step::spawning(tasks);
    assert!(matches!(s.state, CoroutineState::Yielded));
    assert_eq!(s.spawned.len(), 1);
}
