//! The execution-context guard: a runtime check that yields an unforgeable
//! capability token only in the permitted (thread) context, and a
//! construct-once registry gated by that token.
//!
//! A guarded allocator or scheduler singleton exposes itself only against the
//! token, so its operations are unreachable from interrupt/exception context;
//! that invariant is what lets such an allocator omit internal locking. The
//! token must not be carried across contexts: the check is runtime evidence,
//! not a static proof.

use vstd::prelude::*;

verus! {

/// An opaque, copyable proof that the holder passed the execution-context
/// check. Only [`Private::get`] constructs one, and the phantom field makes
/// the type neither Send nor Sync, so safe code cannot carry a token into
/// another execution context.
#[derive(Clone, Copy)]
pub struct Private {
    _not_send_or_sync: core::marker::PhantomData<std::rc::Rc<()>>,
}

impl Private {
    /// Judges one volatile read of the interrupt control and state register:
    /// its low byte holds the number of the currently active exception, and
    /// zero means thread context. Returns a token exactly for thread context,
    /// and "unavailable" under interrupt/exception context.
    pub fn get(icsr: u32) -> (r: Option<Private>)
        ensures
            r is Some <==> icsr % 256 == 0,
    {
        if icsr % 256 == 0 {
            Some(Private { _not_send_or_sync: core::marker::PhantomData })
        } else {
            None
        }
    }
}

/// A construct-once registry cell for a process-wide singleton (an allocator
/// or a scheduler instance), whose initialization runs at most once and whose
/// access is gated by the execution-context token.
pub struct Guarded<T> {
    inner: Option<T>,
}

impl<T> Guarded<T> {
    /// Whether the singleton has been initialized.
    pub closed spec fn is_init(&self) -> bool {
        self.inner is Some
    }

    /// The held instance.
    pub closed spec fn value(&self) -> T {
        self.inner->0
    }

    /// An empty, not yet initialized cell.
    pub fn new() -> (r: Guarded<T>)
        ensures
            !r.is_init(),
    {
        Guarded { inner: None }
    }

    /// Initializes the cell with `value` on first use; a later call leaves
    /// the held instance untouched and hands `value` back, so initialization
    /// runs at most once.
    pub fn init(&mut self, _token: Private, value: T) -> (rejected: Option<T>)
        ensures
            final(self).is_init(),
            if old(self).is_init() {
                &&& *final(self) == *old(self)
                &&& rejected == Some(value)
            } else {
                &&& final(self).value() == value
                &&& rejected is None
            },
    {
        if self.inner.is_some() {
            Some(value)
        } else {
            self.inner = Some(value);
            None
        }
    }

    /// Whether the cell has been initialized.
    pub fn is_initialized(&self, _token: Private) -> (r: bool)
        ensures
            r == self.is_init(),
    {
        self.inner.is_some()
    }

    /// Access to the held instance, available only against a token.
    pub fn borrow(&self, _token: Private) -> (r: &T)
        requires
            self.is_init(),
        ensures
            *r == self.value(),
    {
        match &self.inner {
            Some(v) => v,
            None => vstd::pervasive::unreached(),
        }
    }

    /// Exclusive access to the held instance, available only against a
    /// token.
    pub fn borrow_mut(&mut self, _token: Private) -> (r: &mut T)
        requires
            old(self).is_init(),
        ensures
            *r == old(self).value(),
            final(self).is_init(),
            final(self).value() == *final(r),
    {
        match &mut self.inner {
            Some(v) => v,
            None => vstd::pervasive::unreached(),
        }
    }
}

} // verus!
