//! What holds of the signals of a consistent ledger: no task is signalled
//! before it starts, a running task was given one start, and a task that
//! ended was given one start and, later, one finish.

use vstd::prelude::*;
use crate::runner::{
    LedgerView, Signal, TaskState, about, all_ended, has_ended, is_consistent, is_first_failure,
    lemma_signal_added, signals_of, task_of,
};

verus! {

/// Whether the only signals about task `i` are a start at place `p` and a
/// finish at the later place `q`.
pub open spec fn starts_then_finishes(signals: Seq<Signal>, i: int, p: int, q: int) -> bool {
    &&& 0 <= p < q < signals.len()
    &&& signals[p] == Signal::Start(i)
    &&& signals[q] == Signal::Finish(i)
    &&& forall|k: int|
        0 <= k < signals.len() && k != p && k != q ==> task_of(#[trigger] signals[k]) != i
}

/// Whether task `i` was given one start, later one finish, and no other
/// signal.
pub open spec fn is_paired(signals: Seq<Signal>, i: int) -> bool {
    exists|p: int, q: int| starts_then_finishes(signals, i, p, q)
}

/// Whether the only signal about task `i` is a start at place `p`.
pub open spec fn only_starts(signals: Seq<Signal>, i: int, p: int) -> bool {
    &&& 0 <= p < signals.len()
    &&& signals[p] == Signal::Start(i)
    &&& forall|k: int| 0 <= k < signals.len() && k != p ==> task_of(#[trigger] signals[k]) != i
}

/// Whether no signal is about task `i`.
pub open spec fn never_signalled(signals: Seq<Signal>, i: int) -> bool {
    forall|k: int| 0 <= k < signals.len() ==> task_of(#[trigger] signals[k]) != i
}

proof fn lemma_none(signals: Seq<Signal>, i: int)
    requires
        signals_of(signals, i).len() == 0,
    ensures
        never_signalled(signals, i),
    decreases signals.len(),
{
    if signals.len() > 0 {
        let rest = signals.drop_last();
        assert(rest.push(signals.last()) =~= signals);
        lemma_signal_added(rest, signals.last(), i);
        lemma_none(rest, i);
        assert forall|k: int| 0 <= k < signals.len() implies task_of(#[trigger] signals[k])
            != i by {
            if k < rest.len() {
                assert(rest[k] == signals[k]);
            }
        }
    }
}

proof fn lemma_one(signals: Seq<Signal>, i: int, x: Signal) -> (p: int)
    requires
        signals_of(signals, i) == seq![x],
    ensures
        0 <= p < signals.len(),
        signals[p] == x,
        forall|k: int| 0 <= k < signals.len() && k != p ==> task_of(#[trigger] signals[k]) != i,
    decreases signals.len(),
{
    if signals.len() == 0 {
        signals.lemma_filter_len(about(i));
        0
    } else {
        let rest = signals.drop_last();
        let last = signals.last();
        assert(rest.push(last) =~= signals);
        lemma_signal_added(rest, last, i);
        if task_of(last) == i {
            assert(signals_of(rest, i).push(last) == seq![x]);
            assert(signals_of(rest, i).len() == 0);
            assert(signals_of(rest, i).push(last)[0] == last);
            lemma_none(rest, i);
            assert forall|k: int| 0 <= k < signals.len() && k != signals.len() - 1 implies task_of(
                #[trigger] signals[k],
            ) != i by {
                assert(rest[k] == signals[k]);
            }
            signals.len() - 1
        } else {
            let p = lemma_one(rest, i, x);
            assert(signals[p] == rest[p]);
            assert forall|k: int| 0 <= k < signals.len() && k != p implies task_of(
                #[trigger] signals[k],
            ) != i by {
                if k < rest.len() {
                    assert(rest[k] == signals[k]);
                }
            }
            p
        }
    }
}

proof fn lemma_two(signals: Seq<Signal>, i: int, x: Signal, y: Signal) -> (r: (int, int))
    requires
        signals_of(signals, i) == seq![x, y],
    ensures
        0 <= r.0 < r.1 < signals.len(),
        signals[r.0] == x,
        signals[r.1] == y,
        forall|k: int|
            0 <= k < signals.len() && k != r.0 && k != r.1 ==> task_of(#[trigger] signals[k]) != i,
    decreases signals.len(),
{
    if signals.len() == 0 {
        signals.lemma_filter_len(about(i));
        (0, 0)
    } else {
        let rest = signals.drop_last();
        let last = signals.last();
        assert(rest.push(last) =~= signals);
        lemma_signal_added(rest, last, i);
        if task_of(last) == i {
            let before = signals_of(rest, i);
            assert(before.push(last) == seq![x, y]);
            assert(before.len() == 1);
            assert(before.push(last)[1] == last);
            assert(before.push(last)[0] == before[0]);
            assert(before =~= seq![x]);
            let p = lemma_one(rest, i, x);
            assert(signals[p] == rest[p]);
            assert forall|k: int|
                0 <= k < signals.len() && k != p && k != signals.len() - 1 implies task_of(
                #[trigger] signals[k],
            ) != i by {
                assert(rest[k] == signals[k]);
            }
            (p, signals.len() - 1)
        } else {
            let r = lemma_two(rest, i, x, y);
            assert(signals[r.0] == rest[r.0]);
            assert(signals[r.1] == rest[r.1]);
            assert forall|k: int|
                0 <= k < signals.len() && k != r.0 && k != r.1 implies task_of(
                #[trigger] signals[k],
            ) != i by {
                if k < rest.len() {
                    assert(rest[k] == signals[k]);
                }
            }
            r
        }
    }
}

/// Progress pairing: a task that ended was given exactly one start signal
/// and exactly one finish signal, the start before the finish, and no
/// other signal.
pub proof fn lemma_ended_task_is_paired(v: LedgerView, i: int)
    requires
        is_consistent(v),
        0 <= i < v.tasks.len(),
        has_ended(v.tasks[i].state),
    ensures
        is_paired(v.signals, i),
{
    assert(signals_of(v.signals, i) == seq![Signal::Start(i), Signal::Finish(i)]);
    let r = lemma_two(v.signals, i, Signal::Start(i), Signal::Finish(i));
    assert(starts_then_finishes(v.signals, i, r.0, r.1));
}

/// A running task was given exactly one start signal and no finish yet.
pub proof fn lemma_running_task_has_started(v: LedgerView, i: int)
    requires
        is_consistent(v),
        0 <= i < v.tasks.len(),
        v.tasks[i].state == TaskState::Running,
    ensures
        exists|p: int| only_starts(v.signals, i, p),
{
    assert(signals_of(v.signals, i) == seq![Signal::Start(i)]);
    let p = lemma_one(v.signals, i, Signal::Start(i));
    assert(only_starts(v.signals, i, p));
}

/// A queued task was given no signal.
pub proof fn lemma_queued_task_is_silent(v: LedgerView, i: int)
    requires
        is_consistent(v),
        0 <= i < v.tasks.len(),
        v.tasks[i].state == TaskState::Queued,
    ensures
        never_signalled(v.signals, i),
{
    assert(signals_of(v.signals, i) == Seq::<Signal>::empty());
    lemma_none(v.signals, i);
}

/// Liveness: once all tasks have ended, every task was given its finish
/// signal, also when some task failed; and if a task failed, there is a
/// first one that did.
pub proof fn lemma_failure_stops_no_task(v: LedgerView)
    requires
        is_consistent(v),
        all_ended(v.tasks),
    ensures
        forall|i: int| 0 <= i < v.tasks.len() ==> #[trigger] is_paired(v.signals, i),
        (exists|i: int| 0 <= i < v.tasks.len() && (#[trigger] v.tasks[i]).state == TaskState::Failed)
            ==> exists|f: int| is_first_failure(v.tasks, f),
{
    assert forall|i: int| 0 <= i < v.tasks.len() implies #[trigger] is_paired(v.signals, i) by {
        assert(has_ended(v.tasks[i].state));
        lemma_ended_task_is_paired(v, i);
    }
    if exists|i: int| 0 <= i < v.tasks.len() && (#[trigger] v.tasks[i]).state == TaskState::Failed {
        let i = choose|i: int|
            0 <= i < v.tasks.len() && (#[trigger] v.tasks[i]).state == TaskState::Failed;
        lemma_first_failure(v, i);
    }
}

/// Before a task that failed there is a first task that failed.
proof fn lemma_first_failure(v: LedgerView, i: int)
    requires
        0 <= i < v.tasks.len(),
        v.tasks[i].state == TaskState::Failed,
    ensures
        exists|f: int| is_first_failure(v.tasks, f),
    decreases i,
{
    if exists|e: int| 0 <= e < i && (#[trigger] v.tasks[e]).state == TaskState::Failed {
        let e = choose|e: int| 0 <= e < i && (#[trigger] v.tasks[e]).state == TaskState::Failed;
        lemma_first_failure(v, e);
    } else {
        assert(is_first_failure(v.tasks, i));
    }
}

} // verus!
