//! The cooperative scheduler: drives one main coroutine and a collection of
//! spawned tasks on a single call stack.
//!
//! One scheduling loop serves both the growable and the fixed-capacity
//! variant: the scheduler is parameterized over a task-storage capability
//! ([`TaskStore`]), implemented by the allocator-backed [`crate::vec::Vec`]
//! and by the fixed-capacity [`BoundedVec`].

use vstd::prelude::*;

use crate::allocator::Alloc;
use crate::coroutine::{Coroutine, CoroutineState, MainCoroutine};
use crate::vec::{spec_grow_ok, Vec};

verus! {

/// Storage capability for the scheduler's task collection: count, append at
/// the end, and constant-time removal by swapping with the last element.
pub trait TaskStore: Sized {
    /// The stored task type.
    type Task;

    /// Invariant that the store's operations preserve.
    spec fn inv(&self) -> bool;

    /// The stored tasks, in position order.
    spec fn tasks(&self) -> Seq<Self::Task>;

    /// Whether the next append succeeds in the current state.
    spec fn can_push(&self) -> bool;

    /// Number of stored tasks.
    fn task_count(&self) -> (n: usize)
        requires
            self.inv(),
        ensures
            n == self.tasks().len(),
    ;

    /// Appends `t`, or hands it back unchanged when the store cannot take it.
    fn try_push_task(&mut self, t: Self::Task) -> (r: Result<(), Self::Task>)
        requires
            old(self).inv(),
        ensures
            final(self).inv(),
            r is Ok <==> old(self).can_push(),
            match r {
                Ok(_) => final(self).tasks() == old(self).tasks().push(t),
                Err(v) => v == t && *final(self) == *old(self),
            },
    ;

    /// Removes and returns the task at `i`, moving the last task into its
    /// place.
    fn swap_remove_task(&mut self, i: usize) -> (t: Self::Task)
        requires
            old(self).inv(),
            i < old(self).tasks().len(),
        ensures
            final(self).inv(),
            t == old(self).tasks()[i as int],
            final(self).tasks() == old(self).tasks().update(
                i as int,
                old(self).tasks().last(),
            ).drop_last(),
    ;
}

impl<T, A: Alloc> TaskStore for Vec<T, A> {
    type Task = T;

    closed spec fn inv(&self) -> bool {
        self.wf()
    }

    closed spec fn tasks(&self) -> Seq<T> {
        self@
    }

    closed spec fn can_push(&self) -> bool {
        self@.len() < self.spec_capacity() || (spec_grow_ok::<T>(self@.len() as int, 1)
            && self.reserve_succeeds(1))
    }

    fn task_count(&self) -> (n: usize) {
        self.len()
    }

    fn try_push_task(&mut self, t: T) -> (r: Result<(), T>) {
        self.try_push(t)
    }

    fn swap_remove_task(&mut self, i: usize) -> (t: T) {
        self.swap_remove(i)
    }
}

/// A task store that holds at most a fixed number of tasks, chosen at
/// construction: the backing of the fixed-capacity scheduler variant.
pub struct BoundedVec<T> {
    items: std::vec::Vec<T>,
    bound: usize,
}

impl<T> BoundedVec<T> {
    /// The fixed maximum count.
    pub closed spec fn spec_bound(&self) -> usize {
        self.bound
    }

    /// An empty store that will hold at most `bound` tasks.
    pub fn new(bound: usize) -> (r: BoundedVec<T>)
        ensures
            r.inv(),
            r.tasks() == Seq::<T>::empty(),
            r.spec_bound() == bound,
    {
        BoundedVec { items: std::vec::Vec::new(), bound }
    }
}

impl<T> TaskStore for BoundedVec<T> {
    type Task = T;

    closed spec fn inv(&self) -> bool {
        self.items@.len() <= self.bound
    }

    closed spec fn tasks(&self) -> Seq<T> {
        self.items@
    }

    closed spec fn can_push(&self) -> bool {
        self.items@.len() < self.bound
    }

    fn task_count(&self) -> (n: usize) {
        self.items.len()
    }

    fn try_push_task(&mut self, t: T) -> (r: Result<(), T>) {
        if self.items.len() < self.bound {
            self.items.push(t);
            Ok(())
        } else {
            Err(t)
        }
    }

    fn swap_remove_task(&mut self, i: usize) -> (t: T) {
        self.items.swap_remove(i)
    }
}

/// A fixed-capacity store below its bound can take one more task: how
/// callers establish [`TaskStore::can_push`] before a `spawn`.
pub proof fn lemma_bounded_can_push<T>(s: &BoundedVec<T>)
    requires
        s.tasks().len() < s.spec_bound(),
    ensures
        s.can_push(),
{
}

/// A growable store with spare capacity can take one more task: how callers
/// establish [`TaskStore::can_push`] before a `spawn`.
pub proof fn lemma_vec_can_push<T, A: Alloc>(v: &Vec<T, A>)
    requires
        v.tasks().len() < v.spec_capacity(),
    ensures
        v.can_push(),
{
}

/// The cooperative scheduler. Two states only: idle and running; the running
/// flag guards against reentrant drive calls (which taking the scheduler by
/// exclusive reference already rules out for verified callers).
pub struct Executor<St>
where
    St: TaskStore,
{
    tasks: St,
    running: bool,
}

impl<St> Executor<St>
where
    St: TaskStore,
    St::Task: Coroutine<Return = (), Task = St::Task>,
{
    /// Invariant: the task store's own invariant holds.
    pub closed spec fn inv(&self) -> bool {
        self.tasks.inv()
    }

    /// Whether a drive call is in progress.
    pub closed spec fn is_running(&self) -> bool {
        self.running
    }

    /// The spawned tasks, in position order.
    pub closed spec fn spec_tasks(&self) -> Seq<St::Task> {
        self.tasks.tasks()
    }

    /// The task store.
    pub closed spec fn spec_store(&self) -> St {
        self.tasks
    }

    /// A scheduler over the given task store.
    pub fn from_store(store: St) -> (r: Executor<St>)
        requires
            store.inv(),
        ensures
            r.inv(),
            !r.is_running(),
            r.spec_tasks() == store.tasks(),
            r.spec_store() == store,
    {
        Executor { tasks: store, running: false }
    }

    /// Number of live spawned tasks.
    pub fn task_count(&self) -> (n: usize)
        requires
            self.inv(),
        ensures
            n == self.spec_tasks().len(),
    {
        self.tasks.task_count()
    }

    /// Appends `task` to the collection; it will first run in the pass after
    /// the next yield of the main coroutine.
    ///
    /// A store with no room left means exhaustion with no fallback, which is
    /// fatal; that input is excluded rather than handled (see
    /// [`Executor::try_spawn`] for the total variant).
    pub fn spawn(&mut self, task: St::Task)
        requires
            old(self).inv(),
            old(self).spec_store().can_push(),
        ensures
            final(self).inv(),
            final(self).spec_tasks() == old(self).spec_tasks().push(task),
            final(self).is_running() == old(self).is_running(),
    {
        match self.tasks.try_push_task(task) {
            Ok(_) => {},
            Err(_) => {
                vstd::pervasive::unreached()
            },
        }
    }

    /// Appends `task` to the collection, or hands it back unchanged when the
    /// store cannot take it.
    pub fn try_spawn(&mut self, task: St::Task) -> (r: Result<(), St::Task>)
        requires
            old(self).inv(),
        ensures
            final(self).inv(),
            final(self).is_running() == old(self).is_running(),
            r is Ok <==> old(self).spec_store().can_push(),
            match r {
                Ok(_) => final(self).spec_tasks() == old(self).spec_tasks().push(task),
                Err(v) => v == task && *final(self) == *old(self),
            },
    {
        self.tasks.try_push_task(task)
    }

    /// Appends each of `spawned` in order; `false` when the store could not
    /// take one of them (tasks already appended stay).
    fn absorb(&mut self, spawned: std::vec::Vec<St::Task>) -> (ok: bool)
        requires
            old(self).inv(),
        ensures
            final(self).inv(),
            final(self).is_running() == old(self).is_running(),
            ok ==> final(self).spec_tasks() == old(self).spec_tasks() + spawned@,
            !ok ==> !final(self).spec_store().can_push(),
            spawned@.len() == 0 ==> ok,
            final(self).spec_tasks().len() >= old(self).spec_tasks().len(),
            forall|k: int|
                0 <= k < old(self).spec_tasks().len() ==> final(self).spec_tasks()[k] == old(
                    self,
                ).spec_tasks()[k],
    {
        let ghost orig = self.tasks.tasks();
        let ghost all = spawned@;
        let mut spawned = spawned;
        #[verifier::loop_isolation(false)]
        while spawned.len() > 0
            invariant
                self.inv(),
                self.is_running() == old(self).is_running(),
                orig == old(self).spec_tasks(),
                spawned@.len() <= all.len(),
                spawned@ == all.skip(all.len() - spawned@.len()),
                self.tasks.tasks() == orig + all.take(all.len() - spawned@.len()),
            decreases spawned@.len(),
        {
            let ghost k = all.len() - spawned@.len();
            let t = spawned.remove(0);
            proof {
                assert(all.skip(k)[0] == all[k]);
                assert(t == all[k]);
                assert(spawned@ =~= all.skip(k + 1));
            }
            match self.tasks.try_push_task(t) {
                Ok(_) => {},
                Err(_) => {
                    proof {
                        assert(self.tasks.tasks() == orig + all.take(k));
                        assert(self.tasks.tasks().len() >= orig.len());
                        assert forall|j: int|
                            0 <= j < orig.len() implies self.tasks.tasks()[j] == orig[j] by {
                            assert((orig + all.take(k))[j] == orig[j]);
                        }
                    }
                    return false;
                },
            }
            proof {
                assert(self.tasks.tasks() =~= orig + all.take(k + 1));
                assert(spawned@ == all.skip(all.len() - spawned@.len()));
            }
        }
        proof {
            assert(all.take(all.len() as int) =~= all);
            assert(self.tasks.tasks() == orig + all);
            assert(self.tasks.tasks().len() >= orig.len());
            assert forall|j: int| 0 <= j < orig.len() implies self.tasks.tasks()[j] == orig[j] by {
                assert((orig + all)[j] == orig[j]);
            }
        }
        true
    }

    /// One scheduling pass: resumes every task that was present at pass
    /// start exactly once, iterating from the last position toward the first,
    /// so that tasks appended mid-pass are never visited and positions not
    /// yet visited are never disturbed. A task whose resume reports
    /// completion is dropped immediately; the order of the remaining tasks is
    /// not preserved. Returns `false` when the store could not take a task
    /// spawned mid-pass.
    fn run_pass(&mut self) -> (ok: bool)
        requires
            old(self).inv(),
        ensures
            final(self).inv(),
            final(self).is_running() == old(self).is_running(),
            !ok ==> !final(self).spec_store().can_push(),
            old(self).spec_tasks().len() == 0 ==> (ok && final(self).spec_tasks().len() == 0),
    {
        let n = self.tasks.task_count();
        let ghost pass_start = self.tasks.tasks();
        let mut i = n;
        #[verifier::loop_isolation(false)]
        while i > 0
            invariant
                self.inv(),
                self.is_running() == old(self).is_running(),
                i <= n,
                n == pass_start.len(),
                i <= self.tasks.tasks().len(),
                pass_start.len() == 0 ==> self.tasks.tasks() == pass_start,
                // positions not yet visited still hold the tasks that stood
                // there at pass start: nothing is skipped or visited twice
                self.tasks.tasks().subrange(0, i as int) == pass_start.subrange(0, i as int),
            decreases i,
        {
            i = i - 1;
            let ghost before_remove = self.tasks.tasks();
            let mut t = self.tasks.swap_remove_task(i);
            proof {
                // the task resumed here is exactly the one present at pass
                // start at this position
                assert(before_remove[i as int] == pass_start.subrange(
                    0,
                    i as int + 1,
                )[i as int]);
                assert(t == pass_start[i as int]);
                assert forall|j: int| 0 <= j < i implies self.tasks.tasks()[j] == pass_start[j] by {
                    assert(before_remove[j] == pass_start.subrange(0, i as int + 1)[j]);
                }
            }
            let ghost after_remove = self.tasks.tasks();
            let step = t.resume();
            if !self.absorb(step.spawned) {
                return false;
            }
            proof {
                assert forall|j: int| 0 <= j < i implies self.tasks.tasks()[j] == pass_start[j] by {
                    assert(self.tasks.tasks()[j] == after_remove[j]);
                }
            }
            let ghost after_absorb = self.tasks.tasks();
            match step.state {
                CoroutineState::Yielded => {
                    match self.tasks.try_push_task(t) {
                        Ok(_) => {},
                        Err(_) => {
                            return false;
                        },
                    }
                },
                CoroutineState::Complete(_) => {
                    // the task completed: it is dropped here, immediately
                },
            }
            proof {
                assert forall|j: int| 0 <= j < i implies self.tasks.tasks()[j] == pass_start[j] by {
                    assert(self.tasks.tasks()[j] == after_absorb[j]);
                }
                assert(self.tasks.tasks().subrange(0, i as int) =~= pass_start.subrange(
                    0,
                    i as int,
                ));
            }
        }
        true
    }

    /// Drives `main` to completion: resumes it once, and after every yield
    /// runs one full pass over the spawned tasks, until it completes. Within
    /// one pass the main coroutine always runs before any spawned task, and
    /// every task present at pass start runs exactly once; no further
    /// fairness or ordering is promised.
    ///
    /// Returns `Some(result)` when `main` completes; with an empty task
    /// collection and a main coroutine that promises not to spawn, that is
    /// the only outcome. Returns `None` exactly when the task store could not
    /// take one more task mid-run (the store then still cannot): exhaustion
    /// with no remaining fallback, fatal by design, surfaced as the one
    /// outcome left to a function that must return.
    ///
    /// The call terminates because `main` promises a decreasing measure at
    /// every yield; spawned tasks may yield forever without affecting this.
    pub fn block_on<M>(&mut self, main: M) -> (r: Option<M::Return>)
        where M: MainCoroutine<Task = St::Task>
        requires
            old(self).inv(),
            !old(self).is_running(),
        ensures
            final(self).inv(),
            !final(self).is_running(),
            match r {
                Some(x) => x == main.completion(),
                None => true,
            },
            r is None ==> !final(self).spec_store().can_push(),
            (old(self).spec_tasks().len() == 0 && !main.spawns()) ==> r == Some(
                main.completion(),
            ),
    {
        let mut main = main;
        let ghost expected = main.completion();
        let ghost quiet = !main.spawns() && self.tasks.tasks().len() == 0;
        self.running = true;
        #[verifier::loop_isolation(false)]
        loop
            invariant
                self.inv(),
                main.completion() == expected,
                quiet ==> (!main.spawns() && self.tasks.tasks().len() == 0),
            decreases main.measure(),
        {
            let step = main.resume();
            if !self.absorb(step.spawned) {
                self.running = false;
                return None;
            }
            match step.state {
                CoroutineState::Complete(x) => {
                    self.running = false;
                    return Some(x);
                },
                CoroutineState::Yielded => {},
            }
            if !self.run_pass() {
                self.running = false;
                return None;
            }
        }
    }
}

impl<S, A> Executor<Vec<S, A>>
where
    A: Alloc,
    S: Coroutine<Return = (), Task = S>,
{
    /// A scheduler whose task collection grows through `allocator`; nothing
    /// is allocated yet.
    pub fn new(allocator: A) -> (r: Executor<Vec<S, A>>)
        requires
            allocator.inv(),
        ensures
            r.inv(),
            !r.is_running(),
            r.spec_tasks() == Seq::<S>::empty(),
            r.spec_store().spec_allocator() == allocator,
            r.spec_store().blocks() == allocator.blocks(),
    {
        Executor::from_store(Vec::new(allocator))
    }
}

impl<S> Executor<BoundedVec<S>>
where
    S: Coroutine<Return = (), Task = S>,
{
    /// A scheduler that supports at most `bound` spawned tasks at a time,
    /// with no allocator behind its task collection.
    pub fn with_max_tasks(bound: usize) -> (r: Executor<BoundedVec<S>>)
        ensures
            r.inv(),
            !r.is_running(),
            r.spec_tasks() == Seq::<S>::empty(),
            r.spec_store().spec_bound() == bound,
    {
        Executor::from_store(BoundedVec::new(bound))
    }
}

} // verus!
