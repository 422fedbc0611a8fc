//! Resumable computations: the interface between tasks and the scheduler.
//!
//! A coroutine exposes one operation, `resume`, which runs the computation to
//! its next suspension point or to completion. Each step also carries the
//! tasks the computation asks the scheduler to spawn, so a task never needs a
//! handle back into the scheduler while the scheduler is mid-pass.

use vstd::prelude::*;

verus! {

/// The state of a resumable computation after one resume.
pub enum CoroutineState<R> {
    /// The computation suspended at one of its own suspension points.
    Yielded,
    /// The computation finished with its result.
    Complete(R),
}

/// What one resume hands back to the scheduler: the computation's state and
/// the tasks it asks to have spawned, in order.
pub struct Step<R, S> {
    /// Suspended or finished.
    pub state: CoroutineState<R>,
    /// Tasks for the scheduler to append to its collection.
    pub spawned: std::vec::Vec<S>,
}

impl<R, S> Step<R, S> {
    /// A suspension that spawns nothing.
    pub fn yielded() -> (r: Step<R, S>)
        ensures
            r.state is Yielded,
            r.spawned@ == Seq::<S>::empty(),
    {
        Step { state: CoroutineState::Yielded, spawned: std::vec::Vec::new() }
    }

    /// A completion that spawns nothing.
    pub fn complete(value: R) -> (r: Step<R, S>)
        ensures
            r.state == CoroutineState::Complete(value),
            r.spawned@ == Seq::<S>::empty(),
    {
        Step { state: CoroutineState::Complete(value), spawned: std::vec::Vec::new() }
    }

    /// A suspension that asks for the given tasks to be spawned.
    pub fn spawning(tasks: std::vec::Vec<S>) -> (r: Step<R, S>)
        ensures
            r.state is Yielded,
            r.spawned == tasks,
    {
        Step { state: CoroutineState::Yielded, spawned: tasks }
    }

    /// The same step with the completion value discarded (its cleanup runs
    /// here, exactly once): the state tag and the spawn requests pass through
    /// unchanged. This is the erasure applied to a spawned task's result.
    pub fn discard_value(self) -> (r: Step<(), S>)
        ensures
            r.spawned == self.spawned,
            self.state is Yielded <==> r.state is Yielded,
            self.state is Complete <==> r.state == CoroutineState::Complete(()),
    {
        match self.state {
            CoroutineState::Yielded => Step {
                state: CoroutineState::Yielded,
                spawned: self.spawned,
            },
            CoroutineState::Complete(x) => {
                let _dropped = x;
                Step { state: CoroutineState::Complete(()), spawned: self.spawned }
            },
        }
    }
}

/// A resumable computation in the shape the scheduler spawns: no promise is
/// made about when (or whether) it completes, so a spawned task may yield
/// forever.
pub trait Coroutine: Sized {
    /// The value produced at completion (discarded for spawned tasks).
    type Return;

    /// The type of tasks this computation may ask the scheduler to spawn.
    type Task;

    /// Runs the computation to its next suspension point or to completion.
    fn resume(&mut self) -> Step<Self::Return, Self::Task>;
}

/// A resumable computation that `block_on` drives to completion. It promises
/// progress: a specification-level measure strictly decreases at every yield,
/// so it cannot yield forever. This promise is what makes the scheduler's
/// drive loop provably terminating; spawned tasks carry no such promise.
pub trait MainCoroutine: Sized {
    /// The value produced at completion.
    type Return;

    /// The type of tasks this computation may ask the scheduler to spawn.
    type Task;

    /// An upper bound on the number of further yields.
    spec fn measure(&self) -> nat;

    /// The value the computation will complete with. Fixed across yields, so
    /// a scheduler can promise what driving the computation returns.
    spec fn completion(&self) -> Self::Return;

    /// Whether the computation may ask for tasks to be spawned. One that
    /// promises not to hands back an empty spawn list at every step, so a
    /// scheduler with an empty task collection can promise to drive it to
    /// its completion value.
    spec fn spawns(&self) -> bool;

    /// Runs the computation to its next suspension point or to completion.
    fn resume(&mut self) -> (r: Step<Self::Return, Self::Task>)
        ensures
            r.state is Yielded ==> final(self).measure() < old(self).measure(),
            r.state is Yielded ==> final(self).completion() == old(self).completion(),
            r.state is Yielded ==> final(self).spawns() == old(self).spawns(),
            r.state is Complete ==> r.state == CoroutineState::Complete(old(self).completion()),
            !old(self).spawns() ==> r.spawned@.len() == 0,
    ;
}

/// A computation that suspends a fixed number of times and then completes
/// with a copy of its value. The simplest conforming coroutine; it spawns
/// nothing. `S` fixes the task type of the scheduler it is used with.
pub struct Yields<T, S> {
    remaining: usize,
    value: T,
    _marker: core::marker::PhantomData<S>,
}

impl<T: Copy, S> Yields<T, S> {
    /// How many more times the computation will suspend.
    pub closed spec fn spec_remaining(&self) -> usize {
        self.remaining
    }

    /// The value the computation completes with.
    pub closed spec fn spec_value(&self) -> T {
        self.value
    }

    /// A computation that yields `remaining` times, then completes with
    /// `value`.
    pub fn new(remaining: usize, value: T) -> (r: Yields<T, S>)
        ensures
            r.spec_remaining() == remaining,
            r.spec_value() == value,
            r.completion() == value,
            r.measure() == remaining,
            !r.spawns(),
    {
        Yields { remaining, value, _marker: core::marker::PhantomData }
    }

    fn step(&mut self) -> (r: Step<T, S>)
        ensures
            final(self).spec_value() == old(self).spec_value(),
            r.spawned@ == Seq::<S>::empty(),
            if old(self).spec_remaining() > 0 {
                &&& r.state is Yielded
                &&& final(self).spec_remaining() == old(self).spec_remaining() - 1
            } else {
                &&& r.state == CoroutineState::Complete(old(self).spec_value())
                &&& final(self).spec_remaining() == 0
            },
    {
        if self.remaining > 0 {
            self.remaining = self.remaining - 1;
            Step::yielded()
        } else {
            Step::complete(self.value)
        }
    }
}

impl<T: Copy, S> MainCoroutine for Yields<T, S> {
    type Return = T;

    type Task = S;

    closed spec fn measure(&self) -> nat {
        self.remaining as nat
    }

    closed spec fn completion(&self) -> T {
        self.value
    }

    closed spec fn spawns(&self) -> bool {
        false
    }

    fn resume(&mut self) -> (r: Step<T, S>)
        ensures
            final(self).spec_value() == old(self).spec_value(),
            r.spawned@ == Seq::<S>::empty(),
            if old(self).spec_remaining() > 0 {
                &&& r.state is Yielded
                &&& final(self).spec_remaining() == old(self).spec_remaining() - 1
            } else {
                &&& r.state == CoroutineState::Complete(old(self).spec_value())
                &&& final(self).spec_remaining() == 0
            },
    {
        self.step()
    }
}

/// Adapts a progress-promising computation to the spawned-task shape, where
/// no promise is needed.
pub struct AsTask<M> {
    inner: M,
}

impl<M: MainCoroutine> AsTask<M> {
    /// The wrapped computation.
    pub closed spec fn inner(&self) -> M {
        self.inner
    }

    /// Uses `m` as a spawned task.
    pub fn new(m: M) -> (r: AsTask<M>)
        ensures
            r.inner() == m,
    {
        AsTask { inner: m }
    }
}

impl<M: MainCoroutine> Coroutine for AsTask<M> {
    type Return = M::Return;

    type Task = M::Task;

    fn resume(&mut self) -> (r: Step<M::Return, M::Task>)
        ensures
            r.state is Yielded ==> final(self).inner().measure() < old(self).inner().measure(),
            r.state is Yielded ==> final(self).inner().completion() == old(
                self,
            ).inner().completion(),
            r.state is Yielded ==> final(self).inner().spawns() == old(self).inner().spawns(),
            r.state is Complete ==> r.state == CoroutineState::Complete(
                old(self).inner().completion(),
            ),
            !old(self).inner().spawns() ==> r.spawned@.len() == 0,
    {
        self.inner.resume()
    }
}

/// Adapts any coroutine to the spawned-task shape by discarding the value it
/// completes with: the step's state and spawn requests pass through
/// unchanged.
pub struct Discard<G> {
    inner: G,
}

impl<G: Coroutine> Discard<G> {
    /// The wrapped computation.
    pub closed spec fn inner(&self) -> G {
        self.inner
    }

    /// Wraps `g` so that its completion value is dropped.
    pub fn new(g: G) -> (r: Discard<G>)
        ensures
            r.inner() == g,
    {
        Discard { inner: g }
    }
}

impl<G: Coroutine> Coroutine for Discard<G> {
    type Return = ();

    type Task = G::Task;

    fn resume(&mut self) -> Step<(), G::Task> {
        // one resume of the wrapped computation, then the contracted erasure
        self.inner.resume().discard_value()
    }
}

} // verus!
