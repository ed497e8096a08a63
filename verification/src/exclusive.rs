//! The exclusive-access callback registry.
//!
//! [`CallbacksMut`] holds an ordered, append-only list of callbacks whose
//! bodies may mutate their captured state, so dispatch takes an *exclusive*
//! guard on the registry's storage for the whole iteration and additionally
//! acquires each callback's captured-state cell exclusively around its
//! invocation.  A callback that re-enters the registry through an aliased
//! handle asks for a second exclusive acquisition while the first is still
//! outstanding; that is always rejected with an [`AccessConflict`] — never
//! queued — trading the liveness of the nested call for the certainty that
//! no two writers ever observe the same state.

use vstd::prelude::*;

use crate::access::AccessConflict;
use crate::access::AccessState;
use crate::cell::GuardedCell;
use crate::model::Event;
use crate::model::Run;
use crate::model::bump_count;
use crate::model::next_count;

verus! {

/// A mutating callback registered with the exclusive registry.
#[derive(Clone, Copy)]
pub enum MutCallback {
    /// Bumps a counter captured in the callback's own state cell.
    Counter(GuardedCell<u64>),
    /// Re-enters the registry with the value doubled, through an aliased
    /// handle — a second exclusive acquisition that always conflicts.
    Reenter,
}

/// The mathematical model of a mutating callback.
pub ghost enum MutModel {
    Counter { count: u64 },
    Reenter,
}

impl MutCallback {
    /// The model of this callback.
    pub open spec fn model(self) -> MutModel {
        match self {
            MutCallback::Counter(cell) => MutModel::Counter { count: cell.value() },
            MutCallback::Reenter => MutModel::Reenter,
        }
    }

    /// No guard is outstanding on the callback's captured-state cell.
    pub open spec fn at_rest(self) -> bool {
        match self {
            MutCallback::Counter(cell) => cell.mode() is Free,
            MutCallback::Reenter => true,
        }
    }

    /// A counting callback starting at zero.
    pub fn counter() -> (c: MutCallback)
        ensures
            c.model() == (MutModel::Counter { count: 0u64 }),
            c.at_rest(),
    {
        MutCallback::Counter(GuardedCell::new(0))
    }

    /// A callback that re-enters the registry through an aliased handle.
    pub fn reenter() -> (c: MutCallback)
        ensures
            c.model() == MutModel::Reenter,
            c.at_rest(),
    {
        MutCallback::Reenter
    }
}

/// The models of a list of mutating callbacks, position by position.
pub open spec fn mut_models_of(s: Seq<MutCallback>) -> Seq<MutModel> {
    Seq::new(s.len(), |i: int| s[i].model())
}

/// Every callback in the list has its captured-state cell free.
pub open spec fn all_mut_at_rest(s: Seq<MutCallback>) -> bool {
    forall|j: int| 0 <= j < s.len() ==> (#[trigger] s[j]).at_rest()
}

/// One dispatch of the exclusive registry, starting at callback `i` of `n`,
/// with the registry's exclusive guard outstanding.
///
/// A counting callback appends one event and advances its counter; a
/// re-entering callback's nested exclusive acquisition conflicts with the
/// outstanding guard, so the run is cut short with nothing rolled back.
pub open spec fn run_exclusive(cbs: Seq<MutModel>, n: int, i: int, value: i32) -> Run<MutModel>
    decreases n - i,
{
    if i >= n {
        Run { cbs, events: Seq::empty(), ok: true }
    } else {
        match cbs[i] {
            MutModel::Counter { count } => {
                let c2 = next_count(count);
                let ev = Event::Counted { index: i as usize, value, count: c2 };
                let rest = run_exclusive(
                    cbs.update(i, MutModel::Counter { count: c2 }),
                    n,
                    i + 1,
                    value,
                );
                Run { cbs: rest.cbs, events: seq![ev] + rest.events, ok: rest.ok }
            },
            MutModel::Reenter => {
                Run {
                    cbs,
                    events: seq![Event::Reentered { index: i as usize, value }],
                    ok: false,
                }
            },
        }
    }
}

/// A whole dispatch of the exclusive registry over `value`.
pub open spec fn exclusive_dispatch(cbs: Seq<MutModel>, value: i32) -> Run<MutModel> {
    run_exclusive(cbs, cbs.len() as int, 0, value)
}

/// An ordered, append-only registry of mutating callbacks whose dispatch
/// holds an exclusive guard on the registry storage for the whole iteration.
#[derive(Clone)]
pub struct CallbacksMut {
    guard: AccessState,
    entries: Vec<MutCallback>,
    trace: Vec<Event>,
}

impl CallbacksMut {
    /// The models of the registered callbacks, in registration order.
    pub closed spec fn cbs(self) -> Seq<MutModel> {
        mut_models_of(self.entries@)
    }

    /// Every event appended by dispatches so far, oldest first.
    pub closed spec fn log(self) -> Seq<Event> {
        self.trace@
    }

    /// At rest: no guard outstanding on the registry or on any callback's
    /// captured-state cell.
    pub closed spec fn wf(self) -> bool {
        self.guard is Free && all_mut_at_rest(self.entries@)
    }

    /// An empty registry.
    pub fn new() -> (r: CallbacksMut)
        ensures
            r.wf(),
            r.cbs() == Seq::<MutModel>::empty(),
            r.log() == Seq::<Event>::empty(),
    {
        let r = CallbacksMut { guard: AccessState::Free, entries: Vec::new(), trace: Vec::new() };
        proof {
            assert(r.cbs() =~= Seq::<MutModel>::empty());
        }
        r
    }

    /// Append a callback.  Registration never takes a call-time guard, never
    /// fails, and never touches the existing entries or the trace.
    pub fn register(&mut self, callback: MutCallback)
        requires
            old(self).wf(),
            callback.at_rest(),
        ensures
            final(self).wf(),
            final(self).cbs() == old(self).cbs().push(callback.model()),
            final(self).log() == old(self).log(),
    {
        self.entries.push(callback);
        proof {
            assert(self.cbs() =~= old(self).cbs().push(callback.model()));
            assert(all_mut_at_rest(self.entries@)) by {
                assert(forall|j: int|
                    0 <= j < old(self).entries@.len() ==> self.entries@[j]
                        == old(self).entries@[j]);
            }
        }
    }

    /// The number of registered callbacks.
    pub fn len(&self) -> (n: usize)
        ensures
            n == self.cbs().len(),
    {
        self.entries.len()
    }

    /// The trace of callback invocations, oldest first.
    pub fn trace(&self) -> (t: &Vec<Event>)
        ensures
            t@ == self.log(),
    {
        &self.trace
    }

    /// Dispatch every registered callback over `value`, in registration
    /// order, holding the registry's exclusive guard for the whole
    /// iteration and each callback's captured-state cell around its
    /// invocation.  A re-entering callback's second exclusive acquisition
    /// conflicts; the conflict propagates out with no further callbacks run
    /// and the effects of earlier callbacks kept.
    pub fn call(&mut self, value: i32) -> (r: Result<(), AccessConflict>)
        requires
            old(self).wf(),
        ensures
            final(self).wf(),
            ({
                let run = exclusive_dispatch(old(self).cbs(), value);
                &&& final(self).cbs() == run.cbs
                &&& final(self).log() == old(self).log() + run.events
                &&& r is Ok <==> run.ok
            }),
    {
        let acq = self.guard.try_exclusive();
        match acq {
            Err(conflict) => Err(conflict),
            Ok(()) => {
                let r = self.dispatch(value);
                self.guard.end_exclusive();
                r
            },
        }
    }

    /// The dispatch loop, entered with the registry's exclusive guard
    /// already outstanding.
    #[verifier::loop_isolation(false)]
    fn dispatch(&mut self, value: i32) -> (r: Result<(), AccessConflict>)
        requires
            old(self).guard is Exclusive,
            all_mut_at_rest(old(self).entries@),
        ensures
            final(self).guard == old(self).guard,
            all_mut_at_rest(final(self).entries@),
            final(self).entries@.len() == old(self).entries@.len(),
            ({
                let run = run_exclusive(old(self).cbs(), old(self).entries@.len() as int, 0, value);
                &&& final(self).cbs() == run.cbs
                &&& final(self).log() == old(self).log() + run.events
                &&& r is Ok <==> run.ok
            }),
    {
        let ghost cbs0 = self.cbs();
        let ghost n = self.entries@.len() as int;
        let ghost full = run_exclusive(cbs0, n, 0, value);
        let ghost log0 = self.log();
        let ghost mut added: Seq<Event> = Seq::empty();
        let mut i: usize = 0;
        while i < self.entries.len()
            invariant
                i <= self.entries@.len(),
                self.entries@.len() == cbs0.len(),
                self.guard is Exclusive,
                all_mut_at_rest(self.entries@),
                self.log() == log0 + added,
                ({
                    let rest = run_exclusive(self.cbs(), n, i as int, value);
                    &&& full.cbs == rest.cbs
                    &&& full.events == added + rest.events
                    &&& full.ok == rest.ok
                }),
            decreases self.entries@.len() - i,
        {
            let ghost pre = *self;
            let ghost rest_here = run_exclusive(pre.cbs(), n, i as int, value);
            proof {
                assert(pre.cbs()[i as int] == pre.entries@[i as int].model());
            }
            let cb = self.entries[i];
            match cb {
                MutCallback::Counter(c) => {
                    // acquire the callback's captured-state cell exclusively
                    // for the duration of its invocation
                    let mut cell = c;
                    let acq = cell.acquire_exclusive();
                    if acq.is_err() {
                        // unreachable: the cell is free whenever the callback
                        // is not already being invoked
                        return Err(AccessConflict);
                    }
                    let count = *cell.read();
                    let c2 = bump_count(count);
                    cell.write(c2);
                    cell.release_exclusive();
                    let ev = Event::Counted { index: i, value, count: c2 };
                    self.entries[i] = MutCallback::Counter(cell);
                    self.trace.push(ev);
                    proof {
                        lemma_mut_models_update(pre.entries@, i as int, MutCallback::Counter(cell));
                        assert(self.cbs() =~= pre.cbs().update(
                            i as int,
                            MutModel::Counter { count: c2 },
                        ));
                        let rest_next = run_exclusive(self.cbs(), n, i as int + 1, value);
                        assert(rest_here.events =~= seq![ev] + rest_next.events);
                        assert(full.events =~= (added + seq![ev]) + rest_next.events);
                        assert(self.log() =~= log0 + (added + seq![ev]));
                        added = added + seq![ev];
                    }
                },
                MutCallback::Reenter => {
                    let ev = Event::Reentered { index: i, value };
                    self.trace.push(ev);
                    // the callback re-enters through its aliased handle: a
                    // second exclusive acquisition while the dispatch guard
                    // is still outstanding, rejected on the spot
                    let attempt = self.guard.try_exclusive();
                    match attempt {
                        Ok(()) => {
                            // unreachable: the guard is exclusive throughout
                            return Err(AccessConflict);
                        },
                        Err(conflict) => {
                            proof {
                                assert(full.events =~= added + seq![ev]);
                                assert(self.log() =~= log0 + (added + seq![ev]));
                            }
                            return Err(conflict);
                        },
                    }
                },
            }
            i = i + 1;
        }
        proof {
            assert(full.events =~= added);
        }
        Ok(())
    }
}

/// Replacing one callback replaces exactly its model.
proof fn lemma_mut_models_update(s: Seq<MutCallback>, i: int, c: MutCallback)
    requires
        0 <= i < s.len(),
    ensures
        mut_models_of(s.update(i, c)) == mut_models_of(s).update(i, c.model()),
{
    assert(mut_models_of(s.update(i, c)) =~= mut_models_of(s).update(i, c.model()));
}

} // verus!
