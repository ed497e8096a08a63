//! Trace events and the mathematical model of a dispatch.
//!
//! Every callback invocation appends one [`Event`] to the owning registry's
//! trace, carrying the callback's position in the registry and the value it
//! was invoked with.  A whole dispatch is modelled by a [`Run`]: the callback
//! states after the run, the events the run appended, and whether it
//! completed or was cut short by an access conflict.

use vstd::prelude::*;

verus! {

/// One record of a callback invocation.
#[derive(Clone, Copy, PartialEq, Eq, Debug)]
pub enum Event {
    /// A counting callback ran: `count` is its counter after the increment.
    Counted { index: usize, value: i32, count: u64 },
    /// A callback re-entered the registry through an aliased handle,
    /// demanding exclusive access; the attempt conflicts and ends the run.
    Reentered { index: usize, value: i32 },
    /// A callback re-entered the registry through an aliased handle under
    /// shared access, stepping the value toward zero.
    Stepped { index: usize, value: i32 },
    /// A Fibonacci callback ran: `fib` is the sequence value it reported and
    /// `count` its invocation counter after the increment.
    Fib { index: usize, value: i32, fib: i64, count: u64 },
}

/// The position of the callback that an event records.
pub open spec fn event_index(e: Event) -> usize {
    match e {
        Event::Counted { index, .. } => index,
        Event::Reentered { index, .. } => index,
        Event::Stepped { index, .. } => index,
        Event::Fib { index, .. } => index,
    }
}

/// The outcome of dispatching a registry once: the callback states after the
/// run, the trace events appended by the run, and whether it completed.
pub ghost struct Run<M> {
    pub cbs: Seq<M>,
    pub events: Seq<Event>,
    pub ok: bool,
}

/// The magnitude of a dispatch value; re-entering callbacks step it toward
/// zero, so it bounds the depth of nested dispatches.
pub open spec fn magnitude(v: i32) -> int {
    if v >= 0 {
        v as int
    } else {
        -(v as int)
    }
}

/// An invocation counter advances by one and stays put at the top of its
/// range rather than wrapping.
pub open spec fn next_count(c: u64) -> u64 {
    if c == u64::MAX {
        c
    } else {
        (c + 1) as u64
    }
}

/// A sum clamped into the `i64` range; the Fibonacci callback saturates at
/// the ends of the range rather than wrapping or failing.
pub open spec fn clamp_i64(x: int) -> i64 {
    if x > i64::MAX as int {
        i64::MAX
    } else if x < i64::MIN as int {
        i64::MIN
    } else {
        x as i64
    }
}

/// Advance a counter, saturating at `u64::MAX`.
pub fn bump_count(c: u64) -> (r: u64)
    ensures
        r == next_count(c),
{
    if c == u64::MAX {
        c
    } else {
        c + 1
    }
}

/// `a + b` clamped into the `i64` range.
pub fn add_clamped(a: i64, b: i64) -> (r: i64)
    ensures
        r == clamp_i64(a + b),
{
    if b >= 0 {
        if a > i64::MAX - b {
            i64::MAX
        } else {
            a + b
        }
    } else {
        if a < i64::MIN - b {
            i64::MIN
        } else {
            a + b
        }
    }
}

/// `a - b` clamped into the `i64` range.
pub fn sub_clamped(a: i64, b: i64) -> (r: i64)
    ensures
        r == clamp_i64(a - b),
{
    if b <= 0 {
        if a > i64::MAX + b {
            i64::MAX
        } else {
            a - b
        }
    } else {
        if a < i64::MIN + b {
            i64::MIN
        } else {
            a - b
        }
    }
}

} // verus!
