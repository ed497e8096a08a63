//! The registries' dispatch laws.
//!
//! These proof functions state, for every registry content and every
//! dispatch value, when a dispatch completes, when it conflicts, and in what
//! order the callbacks run.

use vstd::prelude::*;

use crate::exclusive::MutModel;
use crate::exclusive::exclusive_dispatch;
use crate::exclusive::run_exclusive;
use crate::model::event_index;
use crate::model::magnitude;
use crate::shared::CbModel;
use crate::shared::run_shared;
use crate::shared::shared_dispatch;

verus! {

/// Order preservation for the shared registry: with no re-entering callback
/// registered, a dispatch completes and invokes every callback exactly once,
/// in registration order.
pub proof fn lemma_shared_order_preservation(cbs: Seq<CbModel>, value: i32)
    requires
        cbs.len() <= usize::MAX,
        forall|j: int|
            0 <= j < cbs.len() ==> (#[trigger] cbs[j]) is Counter || cbs[j] is Fib,
    ensures
        ({
            let run = shared_dispatch(cbs, value);
            &&& run.ok
            &&& run.events.len() == cbs.len()
            &&& forall|j: int|
                0 <= j < run.events.len() ==> event_index(#[trigger] run.events[j]) == j
        }),
{
    lemma_shared_order_from(cbs, cbs.len() as int, 0, value);
}

proof fn lemma_shared_order_from(cbs: Seq<CbModel>, n: int, i: int, value: i32)
    requires
        0 <= i <= n <= cbs.len(),
        cbs.len() <= usize::MAX,
        forall|j: int| i <= j < n ==> (#[trigger] cbs[j]) is Counter || cbs[j] is Fib,
    ensures
        ({
            let run = run_shared(cbs, n, i, value);
            &&& run.ok
            &&& run.events.len() == n - i
            &&& forall|j: int|
                0 <= j < run.events.len() ==> event_index(#[trigger] run.events[j]) == i + j
        }),
    decreases n - i,
{
    if i < n {
        let run = run_shared(cbs, n, i, value);
        match cbs[i] {
            CbModel::Counter { count } => {
                let updated = cbs.update(i, CbModel::Counter { count: crate::model::next_count(count) });
                lemma_shared_order_from(updated, n, i + 1, value);
            },
            CbModel::Fib { a, b, count } => {
                let c2 = crate::model::next_count(count);
                let st2 = if value >= 0 {
                    CbModel::Fib { a: crate::model::clamp_i64(a + b), b: a, count: c2 }
                } else {
                    CbModel::Fib { a: b, b: crate::model::clamp_i64(a - b), count: c2 }
                };
                let updated = cbs.update(i, st2);
                lemma_shared_order_from(updated, n, i + 1, value);
            },
            _ => {},
        }
    }
}

/// Order preservation for the exclusive registry: with no re-entering
/// callback registered, a dispatch completes and invokes every callback
/// exactly once, in registration order.
pub proof fn lemma_exclusive_order_preservation(cbs: Seq<MutModel>, value: i32)
    requires
        cbs.len() <= usize::MAX,
        forall|j: int| 0 <= j < cbs.len() ==> (#[trigger] cbs[j]) is Counter,
    ensures
        ({
            let run = exclusive_dispatch(cbs, value);
            &&& run.ok
            &&& run.events.len() == cbs.len()
            &&& forall|j: int|
                0 <= j < run.events.len() ==> event_index(#[trigger] run.events[j]) == j
        }),
{
    lemma_exclusive_order_from(cbs, cbs.len() as int, 0, value);
}

proof fn lemma_exclusive_order_from(cbs: Seq<MutModel>, n: int, i: int, value: i32)
    requires
        0 <= i <= n <= cbs.len(),
        cbs.len() <= usize::MAX,
        forall|j: int| i <= j < n ==> (#[trigger] cbs[j]) is Counter,
    ensures
        ({
            let run = run_exclusive(cbs, n, i, value);
            &&& run.ok
            &&& run.events.len() == n - i
            &&& forall|j: int|
                0 <= j < run.events.len() ==> event_index(#[trigger] run.events[j]) == i + j
        }),
    decreases n - i,
{
    if i < n {
        match cbs[i] {
            MutModel::Counter { count } => {
                let updated = cbs.update(
                    i,
                    MutModel::Counter { count: crate::model::next_count(count) },
                );
                lemma_exclusive_order_from(updated, n, i + 1, value);
            },
            _ => {},
        }
    }
}

/// Shared-shared reentrancy succeeds: as long as no callback demands an
/// exclusive acquisition, a dispatch of the shared registry completes for
/// every value — nested shared re-entries and all.
pub proof fn lemma_shared_reentry_succeeds(cbs: Seq<CbModel>, value: i32)
    requires
        forall|j: int| 0 <= j < cbs.len() ==> !((#[trigger] cbs[j]) is Reenter),
    ensures
        shared_dispatch(cbs, value).ok,
{
    lemma_shared_no_reenter_from(cbs, cbs.len() as int, 0, value);
}

proof fn lemma_shared_no_reenter_from(cbs: Seq<CbModel>, n: int, i: int, value: i32)
    requires
        0 <= i <= n <= cbs.len(),
        forall|j: int| 0 <= j < n ==> !((#[trigger] cbs[j]) is Reenter),
    ensures
        ({
            let run = run_shared(cbs, n, i, value);
            &&& run.ok
            &&& run.cbs.len() == cbs.len()
            &&& forall|j: int| 0 <= j < n ==> !((#[trigger] run.cbs[j]) is Reenter)
        }),
    decreases magnitude(value), n - i,
{
    if i < n {
        match cbs[i] {
            CbModel::Counter { count } => {
                let updated = cbs.update(
                    i,
                    CbModel::Counter { count: crate::model::next_count(count) },
                );
                lemma_shared_no_reenter_from(updated, n, i + 1, value);
            },
            CbModel::Fib { a, b, count } => {
                let c2 = crate::model::next_count(count);
                let st2 = if value >= 0 {
                    CbModel::Fib { a: crate::model::clamp_i64(a + b), b: a, count: c2 }
                } else {
                    CbModel::Fib { a: b, b: crate::model::clamp_i64(a - b), count: c2 }
                };
                let updated = cbs.update(i, st2);
                lemma_shared_no_reenter_from(updated, n, i + 1, value);
            },
            CbModel::Step => {
                if value == 0 {
                    lemma_shared_no_reenter_from(cbs, n, i + 1, value);
                } else {
                    let v2 = if value > 0 { (value - 1) as i32 } else { (value + 1) as i32 };
                    lemma_shared_no_reenter_from(cbs, n, 0, v2);
                    let nested = run_shared(cbs, n, 0, v2);
                    lemma_shared_no_reenter_from(nested.cbs, n, i + 1, value);
                }
            },
            CbModel::Reenter => {},
        }
    }
}

/// Exclusive-exclusive reentrancy fails: a dispatch of the exclusive
/// registry that reaches a re-entering callback yields an access conflict,
/// for every value — the nested acquisition is rejected, never queued.
pub proof fn lemma_exclusive_reentry_fails(cbs: Seq<MutModel>, value: i32)
    requires
        exists|j: int| 0 <= j < cbs.len() && (#[trigger] cbs[j]) is Reenter,
    ensures
        !exclusive_dispatch(cbs, value).ok,
{
    lemma_exclusive_reenter_from(cbs, cbs.len() as int, 0, value);
}

proof fn lemma_exclusive_reenter_from(cbs: Seq<MutModel>, n: int, i: int, value: i32)
    requires
        0 <= i <= n <= cbs.len(),
        exists|j: int| i <= j < n && (#[trigger] cbs[j]) is Reenter,
    ensures
        !run_exclusive(cbs, n, i, value).ok,
    decreases n - i,
{
    let j = choose|j: int| i <= j < n && (#[trigger] cbs[j]) is Reenter;
    match cbs[i] {
        MutModel::Counter { count } => {
            let updated = cbs.update(i, MutModel::Counter { count: crate::model::next_count(count) });
            assert(i + 1 <= j < n && updated[j] is Reenter);
            lemma_exclusive_reenter_from(updated, n, i + 1, value);
        },
        MutModel::Reenter => {},
    }
}

/// Shared-then-exclusive reentrancy fails: a dispatch of the shared registry
/// that has a re-entering, exclusive-demanding callback registered yields an
/// access conflict, for every value — the outstanding shared guard rejects
/// the exclusive acquisition.
pub proof fn lemma_shared_exclusive_reentry_fails(cbs: Seq<CbModel>, value: i32)
    requires
        exists|j: int| 0 <= j < cbs.len() && (#[trigger] cbs[j]) is Reenter,
    ensures
        !shared_dispatch(cbs, value).ok,
{
    lemma_shared_reenter_from(cbs, cbs.len() as int, 0, value);
}

proof fn lemma_shared_reenter_from(cbs: Seq<CbModel>, n: int, i: int, value: i32)
    requires
        0 <= i <= n <= cbs.len(),
        exists|j: int| i <= j < n && (#[trigger] cbs[j]) is Reenter,
    ensures
        !run_shared(cbs, n, i, value).ok,
    decreases magnitude(value), n - i,
{
    let j = choose|j: int| i <= j < n && (#[trigger] cbs[j]) is Reenter;
    match cbs[i] {
        CbModel::Counter { count } => {
            let updated = cbs.update(i, CbModel::Counter { count: crate::model::next_count(count) });
            assert(i + 1 <= j < n && updated[j] is Reenter);
            lemma_shared_reenter_from(updated, n, i + 1, value);
        },
        CbModel::Fib { a, b, count } => {
            let c2 = crate::model::next_count(count);
            let st2 = if value >= 0 {
                CbModel::Fib { a: crate::model::clamp_i64(a + b), b: a, count: c2 }
            } else {
                CbModel::Fib { a: b, b: crate::model::clamp_i64(a - b), count: c2 }
            };
            let updated = cbs.update(i, st2);
            assert(i + 1 <= j < n && updated[j] is Reenter);
            lemma_shared_reenter_from(updated, n, i + 1, value);
        },
        CbModel::Step => {
            if value == 0 {
                lemma_shared_reenter_from(cbs, n, i + 1, value);
            } else {
                let v2 = if value > 0 { (value - 1) as i32 } else { (value + 1) as i32 };
                lemma_shared_reenter_from(cbs, n, 0, v2);
            }
        },
        CbModel::Reenter => {},
    }
}

} // verus!
