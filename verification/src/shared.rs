//! The shared-access callback registry.
//!
//! [`Callbacks`] holds an ordered, append-only list of callbacks and
//! dispatches them in registration order.  Dispatch takes only a *shared*
//! guard on the registry's storage and holds it across the whole iteration,
//! so a callback that re-enters the registry under shared access succeeds —
//! any number of nested shared dispatches may coexist — while a callback
//! that demands an *exclusive* acquisition mid-iteration fails with an
//! [`AccessConflict`].
//!
//! Callbacks are explicit variants with their captured state in the open: a
//! counting callback and a Fibonacci callback own their mutable state in an
//! interior [`GuardedCell`] of their own (the registry-level access mode
//! stays shared), and the two re-entering callbacks stand for a handle
//! aliasing the registry itself.

use vstd::prelude::*;

use crate::access::AccessConflict;
use crate::access::AccessState;
use crate::cell::GuardedCell;
use crate::model::Event;
use crate::model::Run;
use crate::model::add_clamped;
use crate::model::bump_count;
use crate::model::clamp_i64;
use crate::model::magnitude;
use crate::model::next_count;
use crate::model::sub_clamped;

verus! {

/// The captured state of the Fibonacci callback: the working pair and an
/// invocation counter.
#[derive(Clone, Copy, PartialEq, Eq, Debug)]
pub struct FibState {
    pub a: i64,
    pub b: i64,
    pub count: u64,
}

/// A callback registered with the shared registry.  Dispatch never needs
/// more than shared access to the registry for any of these; mutation, where
/// it happens, goes through a callback-owned interior cell.
#[derive(Clone, Copy)]
pub enum Callback {
    /// Bumps a private counter held in its own interior cell.
    Counter(GuardedCell<u64>),
    /// Re-enters the registry with the value doubled, through an aliased
    /// handle that demands *exclusive* access — the designed hazard.
    Reenter,
    /// Re-enters the registry with the value stepped toward zero, through an
    /// aliased handle that asks only for *shared* access.
    Step,
    /// Advances a Fibonacci pair held in its own interior cell: forward for
    /// non-negative values, backward for negative ones.
    Fib(GuardedCell<FibState>),
}

/// The mathematical model of a callback: its kind and captured state.
pub ghost enum CbModel {
    Counter { count: u64 },
    Reenter,
    Step,
    Fib { a: i64, b: i64, count: u64 },
}

impl Callback {
    /// The model of this callback.
    pub open spec fn model(self) -> CbModel {
        match self {
            Callback::Counter(cell) => CbModel::Counter { count: cell.value() },
            Callback::Reenter => CbModel::Reenter,
            Callback::Step => CbModel::Step,
            Callback::Fib(cell) => CbModel::Fib {
                a: cell.value().a,
                b: cell.value().b,
                count: cell.value().count,
            },
        }
    }

    /// No guard is outstanding on the callback's interior cell.
    pub open spec fn at_rest(self) -> bool {
        match self {
            Callback::Counter(cell) => cell.mode() is Free,
            Callback::Fib(cell) => cell.mode() is Free,
            _ => true,
        }
    }

    /// A counting callback starting at zero.
    pub fn counter() -> (c: Callback)
        ensures
            c.model() == (CbModel::Counter { count: 0u64 }),
            c.at_rest(),
    {
        Callback::Counter(GuardedCell::new(0))
    }

    /// A callback that re-enters the registry demanding exclusive access.
    pub fn reenter() -> (c: Callback)
        ensures
            c.model() == CbModel::Reenter,
            c.at_rest(),
    {
        Callback::Reenter
    }

    /// A callback that re-enters the registry under shared access, stepping
    /// the value toward zero.
    pub fn step() -> (c: Callback)
        ensures
            c.model() == CbModel::Step,
            c.at_rest(),
    {
        Callback::Step
    }

    /// A Fibonacci callback with the working pair seeded to compute the
    /// sequence from its start.
    pub fn fib() -> (c: Callback)
        ensures
            c.model() == (CbModel::Fib { a: 1i64, b: 0i64, count: 0u64 }),
            c.at_rest(),
    {
        Callback::Fib(GuardedCell::new(FibState { a: 1, b: 0, count: 0 }))
    }
}

/// The models of a list of callbacks, position by position.
pub open spec fn models_of(s: Seq<Callback>) -> Seq<CbModel> {
    Seq::new(s.len(), |i: int| s[i].model())
}

/// Every callback in the list has its interior cell free.
pub open spec fn all_at_rest(s: Seq<Callback>) -> bool {
    forall|j: int| 0 <= j < s.len() ==> (#[trigger] s[j]).at_rest()
}

/// One dispatch of the shared registry, starting at callback `i` of `n`,
/// with a shared guard on the registry outstanding.
///
/// Each callback appends one event and transforms its own captured state;
/// the `Step` callback runs a whole nested dispatch from callback `0` with
/// the value stepped toward zero, and the `Reenter` callback's exclusive
/// acquisition conflicts with the outstanding shared guard, cutting the run
/// short.
pub open spec fn run_shared(cbs: Seq<CbModel>, n: int, i: int, value: i32) -> Run<CbModel>
    decreases magnitude(value), n - i,
{
    if i >= n {
        Run { cbs, events: Seq::empty(), ok: true }
    } else {
        match cbs[i] {
            CbModel::Counter { count } => {
                let c2 = next_count(count);
                let ev = Event::Counted { index: i as usize, value, count: c2 };
                let rest = run_shared(cbs.update(i, CbModel::Counter { count: c2 }), n, i + 1, value);
                Run { cbs: rest.cbs, events: seq![ev] + rest.events, ok: rest.ok }
            },
            CbModel::Reenter => {
                Run {
                    cbs,
                    events: seq![Event::Reentered { index: i as usize, value }],
                    ok: false,
                }
            },
            CbModel::Step => {
                let ev = Event::Stepped { index: i as usize, value };
                if value == 0 {
                    let rest = run_shared(cbs, n, i + 1, value);
                    Run { cbs: rest.cbs, events: seq![ev] + rest.events, ok: rest.ok }
                } else {
                    let v2 = if value > 0 { (value - 1) as i32 } else { (value + 1) as i32 };
                    let nested = run_shared(cbs, n, 0, v2);
                    if nested.ok {
                        let rest = run_shared(nested.cbs, n, i + 1, value);
                        Run {
                            cbs: rest.cbs,
                            events: seq![ev] + nested.events + rest.events,
                            ok: rest.ok,
                        }
                    } else {
                        Run { cbs: nested.cbs, events: seq![ev] + nested.events, ok: false }
                    }
                }
            },
            CbModel::Fib { a, b, count } => {
                let c2 = next_count(count);
                let st2 = if value >= 0 {
                    CbModel::Fib { a: clamp_i64(a + b), b: a, count: c2 }
                } else {
                    CbModel::Fib { a: b, b: clamp_i64(a - b), count: c2 }
                };
                let ev = Event::Fib { index: i as usize, value, fib: b, count: c2 };
                let rest = run_shared(cbs.update(i, st2), n, i + 1, value);
                Run { cbs: rest.cbs, events: seq![ev] + rest.events, ok: rest.ok }
            },
        }
    }
}

/// A whole dispatch of the shared registry over `value`.
pub open spec fn shared_dispatch(cbs: Seq<CbModel>, value: i32) -> Run<CbModel> {
    run_shared(cbs, cbs.len() as int, 0, value)
}

/// An ordered, append-only callback registry whose dispatch holds a shared
/// guard on the registry storage for the whole iteration.
#[derive(Clone)]
pub struct Callbacks {
    guard: AccessState,
    entries: Vec<Callback>,
    trace: Vec<Event>,
}

impl Callbacks {
    /// The models of the registered callbacks, in registration order.
    pub closed spec fn cbs(self) -> Seq<CbModel> {
        models_of(self.entries@)
    }

    /// Every event appended by dispatches so far, oldest first.
    pub closed spec fn log(self) -> Seq<Event> {
        self.trace@
    }

    /// At rest: no guard outstanding on the registry or on any callback's
    /// interior cell.
    pub closed spec fn wf(self) -> bool {
        self.guard is Free && all_at_rest(self.entries@)
    }

    /// An empty registry.
    pub fn new() -> (r: Callbacks)
        ensures
            r.wf(),
            r.cbs() == Seq::<CbModel>::empty(),
            r.log() == Seq::<Event>::empty(),
    {
        let r = Callbacks { guard: AccessState::Free, entries: Vec::new(), trace: Vec::new() };
        proof {
            assert(r.cbs() =~= Seq::<CbModel>::empty());
        }
        r
    }

    /// Append a callback.  Registration never takes a call-time guard, never
    /// fails, and never touches the existing entries or the trace.
    pub fn register(&mut self, callback: Callback)
        requires
            old(self).wf(),
            callback.at_rest(),
        ensures
            final(self).wf(),
            final(self).cbs() == old(self).cbs().push(callback.model()),
            final(self).log() == old(self).log(),
    {
        self.entries.push(callback);
        proof {
            assert(self.cbs() =~= old(self).cbs().push(callback.model()));
            assert(all_at_rest(self.entries@)) by {
                assert(forall|j: int|
                    0 <= j < old(self).entries@.len() ==> self.entries@[j]
                        == old(self).entries@[j]);
            }
        }
    }

    /// The number of registered callbacks.
    pub fn len(&self) -> (n: usize)
        ensures
            n == self.cbs().len(),
    {
        self.entries.len()
    }

    /// The trace of callback invocations, oldest first.
    pub fn trace(&self) -> (t: &Vec<Event>)
        ensures
            t@ == self.log(),
    {
        &self.trace
    }

    /// Dispatch every registered callback over `value`, in registration
    /// order, holding a shared guard on the registry for the whole
    /// iteration.  A nested shared re-entry runs to completion before the
    /// outer iteration proceeds; a nested exclusive acquisition conflicts,
    /// and the conflict propagates out through every enclosing invocation
    /// with no further callbacks run and no rollback of earlier effects.
    pub fn call(&mut self, value: i32) -> (r: Result<(), AccessConflict>)
        requires
            old(self).wf(),
        ensures
            final(self).wf(),
            ({
                let run = shared_dispatch(old(self).cbs(), value);
                &&& final(self).cbs() == run.cbs
                &&& final(self).log() == old(self).log() + run.events
                &&& r is Ok <==> run.ok
            }),
    {
        let acq = self.guard.try_shared();
        match acq {
            Err(conflict) => Err(conflict),
            Ok(()) => {
                proof {
                    assert(magnitude(value) <= 0x8000_0000);
                }
                let r = self.dispatch(value);
                self.guard.end_shared();
                r
            },
        }
    }

    /// The dispatch loop, entered with the registry's shared guard already
    /// outstanding; re-entered by the `Step` callback with one more shared
    /// guard and the value stepped toward zero.
    #[verifier::loop_isolation(false)]
    fn dispatch(&mut self, value: i32) -> (r: Result<(), AccessConflict>)
        requires
            old(self).guard matches AccessState::Shared { readers } && readers >= 1 && readers
                + magnitude(value) <= u64::MAX,
            all_at_rest(old(self).entries@),
        ensures
            final(self).guard == old(self).guard,
            all_at_rest(final(self).entries@),
            final(self).entries@.len() == old(self).entries@.len(),
            ({
                let run = run_shared(old(self).cbs(), old(self).entries@.len() as int, 0, value);
                &&& final(self).cbs() == run.cbs
                &&& final(self).log() == old(self).log() + run.events
                &&& r is Ok <==> run.ok
            }),
        decreases magnitude(value),
    {
        let ghost cbs0 = self.cbs();
        let ghost n = self.entries@.len() as int;
        let ghost full = run_shared(cbs0, n, 0, value);
        let ghost log0 = self.log();
        let ghost g0 = self.guard;
        let ghost mut added: Seq<Event> = Seq::empty();
        let mut i: usize = 0;
        while i < self.entries.len()
            invariant
                i <= self.entries@.len(),
                self.entries@.len() == cbs0.len(),
                self.guard == g0,
                all_at_rest(self.entries@),
                self.log() == log0 + added,
                ({
                    let rest = run_shared(self.cbs(), n, i as int, value);
                    &&& full.cbs == rest.cbs
                    &&& full.events == added + rest.events
                    &&& full.ok == rest.ok
                }),
            decreases self.entries@.len() - i,
        {
            let ghost pre = *self;
            let ghost rest_here = run_shared(pre.cbs(), n, i as int, value);
            proof {
                assert(pre.cbs()[i as int] == pre.entries@[i as int].model());
            }
            let cb = self.entries[i];
            match cb {
                Callback::Counter(c) => {
                    let mut cell = c;
                    let acq = cell.acquire_exclusive();
                    if acq.is_err() {
                        // unreachable: the interior cell is free whenever the
                        // callback is not already being invoked
                        return Err(AccessConflict);
                    }
                    let count = *cell.read();
                    let c2 = bump_count(count);
                    cell.write(c2);
                    cell.release_exclusive();
                    let ev = Event::Counted { index: i, value, count: c2 };
                    self.entries[i] = Callback::Counter(cell);
                    self.trace.push(ev);
                    proof {
                        lemma_models_update(pre.entries@, i as int, Callback::Counter(cell));
                        assert(self.cbs() =~= pre.cbs().update(
                            i as int,
                            CbModel::Counter { count: c2 },
                        ));
                        let rest_next = run_shared(self.cbs(), n, i as int + 1, value);
                        assert(rest_here.events =~= seq![ev] + rest_next.events);
                        assert(full.events =~= (added + seq![ev]) + rest_next.events);
                        assert(self.log() =~= log0 + (added + seq![ev]));
                        added = added + seq![ev];
                    }
                },
                Callback::Reenter => {
                    let ev = Event::Reentered { index: i, value };
                    self.trace.push(ev);
                    // the callback re-enters through its aliased handle and
                    // demands exclusive access while the dispatch's shared
                    // guard is still outstanding: the acquisition conflicts
                    let attempt = self.guard.try_exclusive();
                    match attempt {
                        Ok(()) => {
                            // unreachable: the guard is shared throughout
                            return Err(AccessConflict);
                        },
                        Err(conflict) => {
                            proof {
                                assert(full.events =~= added + seq![ev]);
                                assert(self.log() =~= log0 + (added + seq![ev]));
                            }
                            return Err(conflict);
                        },
                    }
                },
                Callback::Step => {
                    let ev = Event::Stepped { index: i, value };
                    self.trace.push(ev);
                    proof {
                        assert(self.log() =~= log0 + (added + seq![ev]));
                        added = added + seq![ev];
                    }
                    if value != 0 {
                        let v2: i32 = if value > 0 {
                            value - 1
                        } else {
                            value + 1
                        };
                        // the callback re-enters through its aliased handle,
                        // taking one more shared guard for the nested dispatch
                        let acq = self.guard.try_shared();
                        if acq.is_err() {
                            // unreachable: a shared guard is outstanding, so
                            // another shared acquisition succeeds
                            return Err(AccessConflict);
                        }
                        let ghost nested_spec = run_shared(pre.cbs(), n, 0, v2);
                        let nested = self.dispatch(v2);
                        self.guard.end_shared();
                        match nested {
                            Err(conflict) => {
                                proof {
                                    assert(full.events =~= added + nested_spec.events);
                                    assert(self.log() =~= log0 + (added + nested_spec.events));
                                }
                                return Err(conflict);
                            },
                            Ok(()) => {
                                proof {
                                    let rest_next = run_shared(self.cbs(), n, i as int + 1, value);
                                    assert(full.events =~= (added + nested_spec.events)
                                        + rest_next.events);
                                    added = added + nested_spec.events;
                                }
                            },
                        }
                    }
                },
                Callback::Fib(c) => {
                    let mut cell = c;
                    let acq = cell.acquire_exclusive();
                    if acq.is_err() {
                        // unreachable: the interior cell is free whenever the
                        // callback is not already being invoked
                        return Err(AccessConflict);
                    }
                    let st = *cell.read();
                    let c2 = bump_count(st.count);
                    let st2 = if value >= 0 {
                        FibState { a: add_clamped(st.a, st.b), b: st.a, count: c2 }
                    } else {
                        FibState { a: st.b, b: sub_clamped(st.a, st.b), count: c2 }
                    };
                    cell.write(st2);
                    cell.release_exclusive();
                    let ev = Event::Fib { index: i, value, fib: st.b, count: c2 };
                    self.entries[i] = Callback::Fib(cell);
                    self.trace.push(ev);
                    proof {
                        lemma_models_update(pre.entries@, i as int, Callback::Fib(cell));
                        assert(self.cbs() =~= pre.cbs().update(
                            i as int,
                            CbModel::Fib { a: st2.a, b: st2.b, count: st2.count },
                        ));
                        let rest_next = run_shared(self.cbs(), n, i as int + 1, value);
                        assert(rest_here.events =~= seq![ev] + rest_next.events);
                        assert(full.events =~= (added + seq![ev]) + rest_next.events);
                        assert(self.log() =~= log0 + (added + seq![ev]));
                        added = added + seq![ev];
                    }
                },
            }
            i = i + 1;
        }
        proof {
            assert(full.events =~= added);
        }
        Ok(())
    }
}

/// Replacing one callback replaces exactly its model.
proof fn lemma_models_update(s: Seq<Callback>, i: int, c: Callback)
    requires
        0 <= i < s.len(),
    ensures
        models_of(s.update(i, c)) == models_of(s).update(i, c.model()),
{
    assert(models_of(s.update(i, c)) =~= models_of(s).update(i, c.model()));
}

} // verus!
