//! A container enforcing a single-writer/multi-reader access invariant at
//! runtime.
//!
//! A [`GuardedCell`] owns one value together with its [`AccessState`].  All
//! transitions of that state go through explicit acquire/release calls, and a
//! conflicting acquisition returns an [`AccessConflict`] instead of blocking:
//! since a reentrant caller runs on the same thread of control, blocking
//! would turn a detectable logic error into a deadlock.

use vstd::prelude::*;

use crate::access::AccessConflict;
use crate::access::AccessState;

verus! {

/// One value guarded by runtime single-writer/multi-reader bookkeeping.
#[derive(Clone, Copy)]
pub struct GuardedCell<T> {
    state: AccessState,
    value: T,
}

impl<T> GuardedCell<T> {
    /// The current access state of the cell.
    pub closed spec fn mode(self) -> AccessState {
        self.state
    }

    /// The value the cell currently owns.
    pub closed spec fn value(self) -> T {
        self.value
    }

    /// A fresh cell is free.
    pub fn new(value: T) -> (c: Self)
        ensures
            c.mode() is Free,
            c.value() == value,
    {
        GuardedCell { state: AccessState::Free, value }
    }

    /// Attempt to take the cell exclusively: succeeds iff it is free, and
    /// fails immediately — with no state change — otherwise.
    pub fn acquire_exclusive(&mut self) -> (r: Result<(), AccessConflict>)
        ensures
            final(self).value() == old(self).value(),
            old(self).mode() is Free ==> r is Ok && final(self).mode() is Exclusive,
            !(old(self).mode() is Free) ==> r is Err && final(self).mode() == old(self).mode(),
    {
        self.state.try_exclusive()
    }

    /// Attempt to take the cell as one more shared reader: succeeds iff it is
    /// free or already shared, and fails — with no state change — while an
    /// exclusive guard is outstanding.
    pub fn acquire_shared(&mut self) -> (r: Result<(), AccessConflict>)
        requires
            old(self).mode() matches AccessState::Shared { readers } ==> readers < u64::MAX,
        ensures
            final(self).value() == old(self).value(),
            old(self).mode() is Free ==> r is Ok && final(self).mode() == (AccessState::Shared {
                readers: 1u64,
            }),
            old(self).mode() matches AccessState::Shared { readers } ==> r is Ok && final(self).mode()
                == (AccessState::Shared { readers: (readers + 1) as u64 }),
            old(self).mode() is Exclusive ==> r is Err && final(self).mode() == old(self).mode(),
    {
        self.state.try_shared()
    }

    /// Return the one outstanding exclusive guard; the cell becomes free.
    pub fn release_exclusive(&mut self)
        requires
            old(self).mode() is Exclusive,
        ensures
            final(self).mode() is Free,
            final(self).value() == old(self).value(),
    {
        self.state.end_exclusive()
    }

    /// Return one outstanding shared guard; the cell becomes free again once
    /// the last reader has released.
    pub fn release_shared(&mut self)
        requires
            old(self).mode() matches AccessState::Shared { readers } && readers >= 1,
        ensures
            final(self).value() == old(self).value(),
            old(self).mode() matches AccessState::Shared { readers } ==> (if readers == 1 {
                final(self).mode() is Free
            } else {
                final(self).mode() == (AccessState::Shared { readers: (readers - 1) as u64 })
            }),
    {
        self.state.end_shared()
    }

    /// Read the guarded value through an outstanding guard.
    pub fn read(&self) -> (r: &T)
        requires
            !(self.mode() is Free),
        ensures
            *r == self.value(),
    {
        &self.value
    }

    /// Replace the guarded value through the outstanding exclusive guard.
    pub fn write(&mut self, value: T)
        requires
            old(self).mode() is Exclusive,
        ensures
            final(self).mode() == old(self).mode(),
            final(self).value() == value,
    {
        self.value = value;
    }
}

} // verus!
