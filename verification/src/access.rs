//! The runtime bookkeeping of a single-writer/multi-reader guard.
//!
//! A guarded resource is, at any instant, in one of three access states:
//! free, held by `n >= 1` shared readers, or held by one exclusive writer.
//! Acquisitions that are incompatible with the current state fail
//! synchronously with an [`AccessConflict`]; nothing ever blocks or retries.

use vstd::prelude::*;

verus! {

/// The access state of one guarded resource: `Free`, `Shared` with the number
/// of outstanding readers, or `Exclusive`.
#[derive(Clone, Copy, PartialEq, Eq, Debug)]
pub enum AccessState {
    Free,
    Shared { readers: u64 },
    Exclusive,
}

/// The single error kind: an acquisition was requested that is incompatible
/// with the resource's current access state (exclusive versus anything, or
/// shared versus exclusive).
#[derive(Clone, Copy, PartialEq, Eq, Debug)]
pub struct AccessConflict;

impl AccessState {
    /// Attempt an exclusive acquisition: succeeds iff the resource is free;
    /// on conflict the state is left unchanged.
    pub fn try_exclusive(&mut self) -> (r: Result<(), AccessConflict>)
        ensures
            *old(self) is Free ==> r is Ok && *final(self) is Exclusive,
            !(*old(self) is Free) ==> r is Err && *final(self) == *old(self),
    {
        match *self {
            AccessState::Free => {
                *self = AccessState::Exclusive;
                Ok(())
            },
            _ => Err(AccessConflict),
        }
    }

    /// Attempt a shared acquisition: succeeds iff the resource is free or
    /// already shared; on conflict the state is left unchanged.
    pub fn try_shared(&mut self) -> (r: Result<(), AccessConflict>)
        requires
            *old(self) matches AccessState::Shared { readers } ==> readers < u64::MAX,
        ensures
            *old(self) is Free ==> r is Ok && *final(self) == (AccessState::Shared {
                readers: 1u64,
            }),
            *old(self) matches AccessState::Shared { readers } ==> r is Ok && *final(self) == (
            AccessState::Shared { readers: (readers + 1) as u64 }),
            *old(self) is Exclusive ==> r is Err && *final(self) == *old(self),
    {
        match *self {
            AccessState::Free => {
                *self = AccessState::Shared { readers: 1 };
                Ok(())
            },
            AccessState::Shared { readers } => {
                *self = AccessState::Shared { readers: readers + 1 };
                Ok(())
            },
            AccessState::Exclusive => Err(AccessConflict),
        }
    }

    /// Release the one outstanding exclusive guard.
    pub fn end_exclusive(&mut self)
        requires
            *old(self) is Exclusive,
        ensures
            *final(self) is Free,
    {
        *self = AccessState::Free;
    }

    /// Release one outstanding shared guard.
    pub fn end_shared(&mut self)
        requires
            *old(self) matches AccessState::Shared { readers } && readers >= 1,
        ensures
            *old(self) matches AccessState::Shared { readers } ==> (if readers == 1 {
                *final(self) is Free
            } else {
                *final(self) == (AccessState::Shared { readers: (readers - 1) as u64 })
            }),
    {
        match *self {
            AccessState::Shared { readers } => {
                if readers == 1 {
                    *self = AccessState::Free;
                } else {
                    *self = AccessState::Shared { readers: readers - 1 };
                }
            },
            _ => {},
        }
    }
}

} // verus!
