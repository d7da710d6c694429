//! What holds of every history of one task's slot: the requests and
//! dispatch passes that the engine can take it through. The engine keeps
//! the history of each slot, so what is shown here of all histories holds
//! of the engine at every moment.

use vstd::prelude::*;

use crate::dispatch::{due, requested, slot_after, verdict_possible, Slot, Verdict, NANOS_PER_MILLI};

verus! {

/// One thing that happens to a task's slot.
pub enum Step {
    /// A matching change, stamped at clock reading `at`.
    Request { at: u64 },
    /// A dispatch pass at clock reading `now` that came to `verdict`.
    Pass { now: u64, verdict: Verdict },
}

/// The clock reading of a step.
pub open spec fn step_time(step: Step) -> u64 {
    match step {
        Step::Request { at } => at,
        Step::Pass { now, .. } => now,
    }
}

/// A pass that tried to start a run.
pub open spec fn is_attempt(step: Step) -> bool {
    step matches Step::Pass { verdict, .. } && (verdict is Started || verdict is StartFailed)
}

/// A pass that started a run.
pub open spec fn is_start(step: Step) -> bool {
    step matches Step::Pass { verdict, .. } && verdict is Started
}

/// The number of runs that a step ends: the one it interrupts, or the one it reaps.
pub open spec fn ends_of(step: Step) -> nat {
    match step {
        Step::Pass { verdict: Verdict::Started { preempted: true }, .. } => 1,
        Step::Pass { verdict: Verdict::StartFailed { preempted: true }, .. } => 1,
        Step::Pass { verdict: Verdict::Reaped, .. } => 1,
        _ => 0,
    }
}

/// Whether the engine can take `step` on `slot`, for a task with delay `delay_ms`.
pub open spec fn step_allowed(slot: Option<Slot>, delay_ms: i64, step: Step) -> bool {
    match step {
        Step::Request { .. } => true,
        Step::Pass { now, verdict } => verdict_possible(slot, now, delay_ms, verdict),
    }
}

/// The slot after `step`.
pub open spec fn slot_after_step(slot: Option<Slot>, step: Step) -> Option<Slot> {
    match step {
        Step::Request { at } => Some(requested(slot, at)),
        Step::Pass { verdict, .. } => slot_after(slot, verdict),
    }
}

/// The slot after the history `h` that began with the slot `from`.
pub open spec fn slot_after_history(from: Option<Slot>, h: Seq<Step>) -> Option<Slot>
    decreases h.len(),
{
    if h.len() == 0 {
        from
    } else {
        slot_after_step(slot_after_history(from, h.drop_last()), h.last())
    }
}

/// Whether the engine can take every step of `h` in turn, beginning with the slot `from`.
pub open spec fn history_allowed(from: Option<Slot>, h: Seq<Step>, delay_ms: i64) -> bool
    decreases h.len(),
{
    h.len() == 0 || (history_allowed(from, h.drop_last(), delay_ms) && step_allowed(
        slot_after_history(from, h.drop_last()),
        delay_ms,
        h.last(),
    ))
}

/// The number of runs started in `h`.
pub open spec fn runs_started(h: Seq<Step>) -> nat
    decreases h.len(),
{
    if h.len() == 0 {
        0
    } else {
        runs_started(h.drop_last()) + if is_start(h.last()) {
            1nat
        } else {
            0nat
        }
    }
}

/// The number of runs ended in `h`, by interrupt or by reaping.
pub open spec fn runs_ended(h: Seq<Step>) -> nat
    decreases h.len(),
{
    if h.len() == 0 {
        0
    } else {
        runs_ended(h.drop_last()) + ends_of(h.last())
    }
}

/// The number of passes in `h` that tried to start a run.
pub open spec fn start_attempts(h: Seq<Step>) -> nat
    decreases h.len(),
{
    if h.len() == 0 {
        0
    } else {
        start_attempts(h.drop_last()) + if is_attempt(h.last()) {
            1nat
        } else {
            0nat
        }
    }
}

/// Whether a run is in flight.
pub open spec fn running(slot: Option<Slot>) -> bool {
    slot matches Some(s) && s.running
}

/// The pending request of a slot.
pub open spec fn pending(slot: Option<Slot>) -> Option<u64> {
    match slot {
        Some(s) => s.last_run_requested,
        None => None,
    }
}

/// The clock never goes back from one step to a later one.
pub open spec fn times_ordered(h: Seq<Step>) -> bool {
    forall|i: int, j: int|
        0 <= i <= j < h.len() ==> step_time(#[trigger] h[i]) <= step_time(#[trigger] h[j])
}

/// Every request of `h` falls between `from` and `until`.
pub open spec fn requests_within(h: Seq<Step>, from: u64, until: u64) -> bool {
    forall|i: int|
        0 <= i < h.len() ==> (#[trigger] h[i] matches Step::Request { at } ==> from <= at <= until)
}

/// The number of runs in flight: one or none.
pub open spec fn runs_in_flight(slot: Option<Slot>) -> nat {
    if running(slot) {
        1
    } else {
        0
    }
}

/// At every moment a task has at most one run in flight. Whatever the
/// engine does, the runs it has started and the runs it has ended balance
/// with the run in flight: what was in flight at first and was started
/// since is what has ended since and is in flight now.
pub proof fn lemma_at_most_one_run(from: Option<Slot>, h: Seq<Step>, delay_ms: i64)
    requires
        history_allowed(from, h, delay_ms),
    ensures
        runs_in_flight(from) + runs_started(h) == runs_ended(h) + runs_in_flight(
            slot_after_history(from, h),
        ),
        runs_in_flight(slot_after_history(from, h)) <= 1,
    decreases h.len(),
{
    if h.len() > 0 {
        lemma_at_most_one_run(from, h.drop_last(), delay_ms);
    }
}

/// A pass never lets two runs of a task overlap and never loses a request:
/// a run that replaces one in flight interrupts it first, and a pending
/// request either stays pending or leads to a start in that pass.
pub proof fn lemma_no_overlap_no_drop(slot: Option<Slot>, now: u64, delay_ms: i64, v: Verdict)
    requires
        verdict_possible(slot, now, delay_ms, v),
    ensures
        v matches Verdict::Started { preempted } ==> preempted == running(slot),
        v matches Verdict::StartFailed { preempted } ==> preempted == running(slot),
        pending(slot) is Some ==> v is Started || v is StartFailed || pending(slot_after(slot, v))
            == pending(slot),
        running(slot) && running(slot_after(slot, v)) && !(v is Started) ==> v == Verdict::Kept,
{
}

/// A request that arrives while a run is in flight leaves the run alone
/// until the request is due; the pass that finds it due interrupts the run
/// before it starts the next.
pub proof fn lemma_request_while_running(
    slot: Slot,
    at: u64,
    now: u64,
    delay_ms: i64,
    v: Verdict,
)
    requires
        slot.running,
        verdict_possible(Some(requested(Some(slot), at)), now, delay_ms, v),
    ensures
        requested(Some(slot), at).running,
        due(Some(at), now, delay_ms) ==> v == (Verdict::Started { preempted: true }) || v == (
        Verdict::StartFailed { preempted: true }),
        !due(Some(at), now, delay_ms) ==> v == Verdict::Kept || v == Verdict::Reaped,
{
}

/// Debouncing. Take a slot on which no request is pending, a clock that
/// never goes back, and requests that all fall in a window no longer than
/// the task's delay. Then at most one pass tries to start a run, and it
/// does so more than the delay after every request, the last one included.
pub proof fn lemma_burst_starts_once(
    from: Option<Slot>,
    h: Seq<Step>,
    delay_ms: i64,
    first: u64,
    last: u64,
)
    requires
        pending(from) is None,
        history_allowed(from, h, delay_ms),
        times_ordered(h),
        requests_within(h, first, last),
        last - first <= delay_ms * NANOS_PER_MILLI,
    ensures
        start_attempts(h) <= 1,
        runs_started(h) <= 1,
        forall|i: int, j: int|
            0 <= i < h.len() && 0 <= j < h.len() && is_attempt(#[trigger] h[j]) ==> (
            #[trigger] h[i] matches Step::Request { at } ==> step_time(h[j]) - at > delay_ms
                * NANOS_PER_MILLI),
{
    lemma_burst(from, h, delay_ms, first, last);
}

/// The induction behind `lemma_burst_starts_once`: once a start has been
/// tried no request is pending and the clock has left the window, and a
/// pending request is the latest of those made so far.
proof fn lemma_burst(from: Option<Slot>, h: Seq<Step>, delay_ms: i64, first: u64, last: u64)
    requires
        pending(from) is None,
        history_allowed(from, h, delay_ms),
        times_ordered(h),
        requests_within(h, first, last),
        last - first <= delay_ms * NANOS_PER_MILLI,
    ensures
        start_attempts(h) <= 1,
        runs_started(h) <= start_attempts(h),
        start_attempts(h) == 1 ==> pending(slot_after_history(from, h)) is None && h.len() > 0
            && step_time(h.last()) > last,
        pending(slot_after_history(from, h)) matches Some(t) ==> first <= t <= last
            && forall|i: int|
            0 <= i < h.len() ==> (#[trigger] h[i] matches Step::Request { at } ==> at <= t),
        forall|i: int, j: int|
            0 <= i < h.len() && 0 <= j < h.len() && is_attempt(#[trigger] h[j]) ==> (
            #[trigger] h[i] matches Step::Request { at } ==> step_time(h[j]) - at > delay_ms
                * NANOS_PER_MILLI),
    decreases h.len(),
{
    if h.len() == 0 {
        return ;
    }
    let before = h.drop_last();
    let step = h.last();
    let slot = slot_after_history(from, before);
    assert(times_ordered(before)) by {
        assert forall|i: int, j: int| 0 <= i <= j < before.len() implies step_time(
            #[trigger] before[i],
        ) <= step_time(#[trigger] before[j]) by {
            assert(before[i] == h[i] && before[j] == h[j]);
        }
    }
    assert(requests_within(before, first, last)) by {
        assert forall|i: int| 0 <= i < before.len() implies (
        #[trigger] before[i] matches Step::Request { at } ==> first <= at <= last) by {
            assert(before[i] == h[i]);
        }
    }
    lemma_burst(from, before, delay_ms, first, last);
    assert(forall|i: int| 0 <= i < before.len() ==> before[i] == h[i]);
    assert(h[h.len() - 1] == step);
    match step {
        Step::Request { at } => {
            assert(first <= at <= last);
            if start_attempts(before) == 1 {
                assert(step_time(h[before.len() - 1]) <= step_time(h[h.len() - 1]));
                assert(false);
            }
            assert forall|i: int| 0 <= i < h.len() implies (
            #[trigger] h[i] matches Step::Request { at: a } ==> a <= at) by {
                assert(step_time(h[i]) <= step_time(h[h.len() - 1]));
            }
            assert forall|i: int, j: int|
                0 <= i < h.len() && 0 <= j < h.len() && is_attempt(
                    #[trigger] h[j],
                ) implies (#[trigger] h[i] matches Step::Request { at: a } ==> step_time(h[j]) - a
                > delay_ms * NANOS_PER_MILLI) by {
                if j < before.len() {
                    lemma_attempts_count(before, j);
                }
            }
        },
        Step::Pass { now, verdict } => {
            if is_attempt(step) {
                assert(due(pending(slot), now, delay_ms));
                assert(start_attempts(before) == 0);
                assert forall|i: int, j: int|
                    0 <= i < h.len() && 0 <= j < h.len() && is_attempt(
                        #[trigger] h[j],
                    ) implies (#[trigger] h[i] matches Step::Request { at: a } ==> step_time(h[j])
                    - a > delay_ms * NANOS_PER_MILLI) by {
                    if j < before.len() {
                        lemma_attempts_count(before, j);
                    }
                }
            } else {
                if start_attempts(before) == 1 {
                    assert(step_time(h[before.len() - 1]) <= step_time(h[h.len() - 1]));
                }
            }
        },
    }
}

/// A history that holds an attempt counts at least one.
proof fn lemma_attempts_count(h: Seq<Step>, j: int)
    requires
        0 <= j < h.len(),
        is_attempt(h[j]),
    ensures
        start_attempts(h) >= 1,
    decreases h.len(),
{
    if j < h.len() - 1 {
        lemma_attempts_count(h.drop_last(), j);
    }
}

} // verus!
