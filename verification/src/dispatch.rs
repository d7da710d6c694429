//! The dispatch engine: one slot per requested task, a request stamped on
//! every matching change, and passes that start, preempt and reap runs.

use std::collections::HashMap;
use vstd::prelude::*;

use crate::clock::{read, read_from_clock};
use crate::history::{
    history_allowed, is_attempt, lemma_at_most_one_run, lemma_burst_starts_once, requests_within,
    runs_ended, runs_in_flight, runs_started, slot_after_history, start_attempts, step_time,
    times_ordered, Step,
};
use crate::task::{Runnable, RunningTask, Task};

verus! {

broadcast use vstd::std_specs::hash::group_hash_axioms;

/// A change reported by the file-system watcher.
#[derive(Clone, Debug, PartialEq, Eq)]
pub enum ChangeEvent {
    NoticeWrite(String),
    NoticeRemove(String),
    Create(String),
    Write(String),
    Chmod(String),
    Remove(String),
    /// A move, from the first path to the second.
    Rename(String, String),
    Rescan,
    /// A fault of the watcher, with the path it concerns if there is one.
    Error(String, Option<String>),
}

impl ChangeEvent {
    /// The path that tasks are asked about: the changed path of a create,
    /// write or remove and of their notices, the destination of a rename.
    /// Rescans, changes of permissions and faults ask for nothing.
    pub open spec fn path(self) -> Option<Seq<char>> {
        match self {
            ChangeEvent::NoticeWrite(p) => Some(p@),
            ChangeEvent::NoticeRemove(p) => Some(p@),
            ChangeEvent::Create(p) => Some(p@),
            ChangeEvent::Write(p) => Some(p@),
            ChangeEvent::Remove(p) => Some(p@),
            ChangeEvent::Rename(_, to) => Some(to@),
            ChangeEvent::Chmod(_) => None,
            ChangeEvent::Rescan => None,
            ChangeEvent::Error(_, _) => None,
        }
    }

    /// The path that tasks are asked about, if the event has one.
    pub fn effective_path(&self) -> (r: Option<&String>)
        ensures
            match r {
                Some(p) => self.path() == Some(p@),
                None => self.path() is None,
            },
    {
        match self {
            ChangeEvent::NoticeWrite(p) => Some(p),
            ChangeEvent::NoticeRemove(p) => Some(p),
            ChangeEvent::Create(p) => Some(p),
            ChangeEvent::Write(p) => Some(p),
            ChangeEvent::Remove(p) => Some(p),
            ChangeEvent::Rename(_, to) => Some(to),
            ChangeEvent::Chmod(_) => None,
            ChangeEvent::Rescan => None,
            ChangeEvent::Error(_, _) => None,
        }
    }
}

/// What the engine knows of one task: when it was last asked for, if that
/// request is still pending, and whether a run of it is in flight.
#[derive(Clone, Copy, Debug, PartialEq, Eq)]
pub struct Slot {
    pub last_run_requested: Option<u64>,
    pub running: bool,
}

/// The slot of key `k`, if there is one.
pub open spec fn slot_at(slots: Map<usize, Slot>, k: usize) -> Option<Slot> {
    if slots.contains_key(k) {
        Some(slots[k])
    } else {
        None
    }
}

/// A request at clock reading `at`: the slot is made if it is missing, and
/// the latest request replaces an earlier one. A run in flight goes on.
pub open spec fn requested(slot: Option<Slot>, at: u64) -> Slot {
    Slot {
        last_run_requested: Some(at),
        running: match slot {
            Some(s) => s.running,
            None => false,
        },
    }
}

/// The number of nanoseconds in a millisecond.
pub const NANOS_PER_MILLI: i64 = 1_000_000;

/// A request is due once more than the task's delay has passed since it was made.
pub open spec fn due(last_run_requested: Option<u64>, now: u64, delay_ms: i64) -> bool {
    match last_run_requested {
        Some(at) => now - at > delay_ms * NANOS_PER_MILLI,
        None => false,
    }
}

/// Whether a request is due at clock reading `now`. The clock counts
/// nanoseconds, the delay is in milliseconds, and neither is too large or
/// too small for the difference to be taken.
pub fn is_due(last_run_requested: Option<u64>, now: u64, delay_ms: i64) -> (r: bool)
    ensures
        r == due(last_run_requested, now, delay_ms),
{
    match last_run_requested {
        Some(at) => {
            let waited: i128 = now as i128 - at as i128;
            let scale: i128 = NANOS_PER_MILLI as i128;
            assert(delay_ms * scale == delay_ms * 1_000_000);
            let delay: i128 = delay_ms as i128 * scale;
            waited > delay
        },
        None => false,
    }
}

/// What a dispatch pass did with one task.
#[derive(Clone, Copy, Debug, PartialEq, Eq, Structural)]
pub enum Verdict {
    /// The task has no slot.
    Absent,
    /// The slot stays as it was: its request is not due yet, or its run goes on.
    Kept,
    /// The request was due and a run was started. Where a run was in
    /// flight, it was interrupted first.
    Started { preempted: bool },
    /// The request was due but no run could be started; the slot is gone.
    /// Where a run was in flight, it was interrupted first.
    StartFailed { preempted: bool },
    /// No request was due and the run in flight had ended. The slot goes
    /// with the run, unless a request is pending on it.
    Reaped,
}

/// Whether a pass at clock reading `now` can come to verdict `v` on a slot
/// of a task with delay `delay_ms`. A due request always leads to a start,
/// which preempts exactly where a run is in flight; whether the start
/// succeeds, and whether a run has ended, is for the task to say.
pub open spec fn verdict_possible(slot: Option<Slot>, now: u64, delay_ms: i64, v: Verdict) -> bool {
    match slot {
        None => v == Verdict::Absent,
        Some(s) => if due(s.last_run_requested, now, delay_ms) {
            v == (Verdict::Started { preempted: s.running }) || v == (Verdict::StartFailed {
                preempted: s.running,
            })
        } else if s.running {
            v == Verdict::Reaped || v == Verdict::Kept
        } else {
            v == Verdict::Kept
        },
    }
}

/// The slot after a pass that came to verdict `v`.
pub open spec fn slot_after(slot: Option<Slot>, v: Verdict) -> Option<Slot> {
    match v {
        Verdict::Absent => slot,
        Verdict::Kept => slot,
        Verdict::Started { .. } => Some(Slot { last_run_requested: None, running: true }),
        Verdict::StartFailed { .. } => None,
        Verdict::Reaped => match slot {
            Some(s) if s.last_run_requested is Some => Some(
                Slot { last_run_requested: s.last_run_requested, running: false },
            ),
            _ => None,
        },
    }
}

/// A slot that earns its place: a request is pending or a run is in flight.
pub open spec fn slot_in_use(slot: Slot) -> bool {
    slot.last_run_requested is Some || slot.running
}

/// Whether `slot` is `earlier` as it was, or `earlier` with a request stamped on it since.
pub open spec fn asked_since(earlier: Option<Slot>, slot: Option<Slot>) -> bool {
    slot == earlier || (exists|at: u64| slot == Some(#[trigger] requested(earlier, at)))
}

/// Whether a call of `spin` can take a task's slot from `earlier` to
/// `later` with verdict `v`: requests are stamped first, which leaves the
/// slot as `asked`, and the pass at clock reading `now` follows.
pub open spec fn spin_possible(
    earlier: Option<Slot>,
    asked: Option<Slot>,
    now: u64,
    delay_ms: i64,
    v: Verdict,
    later: Option<Slot>,
) -> bool {
    &&& asked_since(earlier, asked)
    &&& verdict_possible(asked, now, delay_ms, v)
    &&& later == slot_after(asked, v)
}

/// Whether a call of `spin` can take a task's slot from `earlier` to `later` with verdict `v`.
pub open spec fn spin_outcome(earlier: Option<Slot>, delay_ms: i64, v: Verdict, later: Option<Slot>) -> bool {
    exists|asked: Option<Slot>, now: u64| #[trigger]
        spin_possible(earlier, asked, now, delay_ms, v, later)
}

/// Whether `answer` is what `task` says when it is asked about the path `path`.
pub open spec fn asked<T: Task>(task: &T, path: Seq<char>, answer: bool) -> bool {
    exists|p: &str| p@ == path && #[trigger] call_ensures(T::should_run, (task, p), answer)
}

/// What a change at `path`, taken in at clock reading `at`, makes of the
/// history of a task's slot: a task that says yes gets a request, and one
/// that says no is left alone.
pub open spec fn stamped_as_asked<T: Task>(
    task: &T,
    path: Seq<char>,
    at: u64,
    earlier: Seq<Step>,
    later: Seq<Step>,
) -> bool {
    ||| asked(task, path, true) && later == earlier.push(Step::Request { at })
    ||| asked(task, path, false) && later == earlier
}

/// What one event makes of the history of a task's slot when it is taken
/// in: nothing where the event has no path, and otherwise a request, at
/// a reading that the clock gave, exactly where the task wants the path.
pub open spec fn took_in_one<T: Task>(
    task: &T,
    event: ChangeEvent,
    earlier: Seq<Step>,
    later: Seq<Step>,
) -> bool {
    match event.path() {
        None => later == earlier,
        Some(path) => exists|at: u64|
            read_from_clock(at) && #[trigger] stamped_as_asked(task, path, at, earlier, later),
    }
}

/// What events make of the history of a task's slot when they are taken
/// in one after the other.
pub open spec fn took_in<T: Task>(
    task: &T,
    events: Seq<ChangeEvent>,
    earlier: Seq<Step>,
    later: Seq<Step>,
) -> bool
    decreases events.len(),
{
    if events.len() == 0 {
        later == earlier
    } else {
        exists|mid: Seq<Step>|
            took_in(task, events.drop_last(), earlier, mid) && #[trigger] took_in_one(
                task,
                events.last(),
                mid,
                later,
            )
    }
}

/// Events without a path ask for nothing: rescans, changes of
/// permissions and faults leave the history of every slot as it was.
pub proof fn lemma_pathless_events_ask_nothing<T: Task>(
    task: &T,
    events: Seq<ChangeEvent>,
    earlier: Seq<Step>,
    later: Seq<Step>,
)
    requires
        forall|i: int| 0 <= i < events.len() ==> (#[trigger] events[i]).path() is None,
        took_in(task, events, earlier, later),
    ensures
        later == earlier,
    decreases events.len(),
{
    if events.len() > 0 {
        let mid = choose|mid: Seq<Step>|
            took_in(task, events.drop_last(), earlier, mid) && #[trigger] took_in_one(
                task,
                events.last(),
                mid,
                later,
            );
        assert(events.last() == events[events.len() - 1]);
        assert forall|i: int| 0 <= i < events.drop_last().len() implies (
        #[trigger] events.drop_last()[i]).path() is None by {
            assert(events.drop_last()[i] == events[i]);
        }
        lemma_pathless_events_ask_nothing(task, events.drop_last(), earlier, mid);
    }
}

/// A request is stamped on a task only where the task wanted the path of
/// one of the events: a history that has grown holds an event with a
/// path of which the task says yes.
pub proof fn lemma_stamped_only_where_asked<T: Task>(
    task: &T,
    events: Seq<ChangeEvent>,
    earlier: Seq<Step>,
    later: Seq<Step>,
)
    requires
        took_in(task, events, earlier, later),
        later != earlier,
    ensures
        exists|i: int|
            0 <= i < events.len() && (#[trigger] events[i]).path() is Some && asked(
                task,
                events[i].path()->0,
                true,
            ),
    decreases events.len(),
{
    if events.len() > 0 {
        let mid = choose|mid: Seq<Step>|
            took_in(task, events.drop_last(), earlier, mid) && #[trigger] took_in_one(
                task,
                events.last(),
                mid,
                later,
            );
        let last = events.len() - 1;
        assert(events.last() == events[last]);
        if later != mid {
            assert(events[last].path() is Some && asked(task, events[last].path()->0, true));
        } else {
            lemma_stamped_only_where_asked(task, events.drop_last(), earlier, mid);
            let i = choose|i: int|
                0 <= i < events.drop_last().len() && (#[trigger] events.drop_last()[i]).path()
                    is Some && asked(task, events.drop_last()[i].path()->0, true);
            assert(events.drop_last()[i] == events[i]);
        }
    }
}

/// Taking in one more event.
proof fn lemma_took_in_one_more<T: Task>(
    task: &T,
    events: Seq<ChangeEvent>,
    event: ChangeEvent,
    earlier: Seq<Step>,
    mid: Seq<Step>,
    later: Seq<Step>,
)
    requires
        took_in(task, events, earlier, mid),
        took_in_one(task, event, mid, later),
    ensures
        took_in(task, events.push(event), earlier, later),
{
    let all = events.push(event);
    assert(all.drop_last() == events);
    assert(all.last() == event);
    assert(took_in(task, all.drop_last(), earlier, mid) && took_in_one(
        task,
        all.last(),
        mid,
        later,
    ));
}

/// Whether `later` is `asked` with a pass at clock reading `now` after it
/// that came to verdict `v`.
pub open spec fn passed(asked: Seq<Step>, now: u64, v: Verdict, later: Seq<Step>) -> bool {
    later == asked.push(Step::Pass { now, verdict: v })
}

/// What a call of `spin` makes of the history of a task's slot: the
/// events are taken in, in their order, and one pass follows, at a
/// reading that the clock gave, which comes to verdict `v`.
pub open spec fn spun<T: Task>(
    task: &T,
    events: Seq<ChangeEvent>,
    earlier: Seq<Step>,
    v: Verdict,
    later: Seq<Step>,
) -> bool {
    exists|asked: Seq<Step>, now: u64|
        read_from_clock(now) && took_in(task, events, earlier, asked) && #[trigger] passed(
            asked,
            now,
            v,
            later,
        )
}

/// Whether `answer` is what the run `run` says when it is polled.
pub open spec fn answered<R: RunningTask>(run: R, answer: bool) -> bool {
    exists|polled: &mut R| *polled == run && #[trigger] call_ensures(R::done, (polled,), answer)
}

/// The verdict on a slot from what is known when the calls have been
/// made: whether its request is due; where it is, whether the task's
/// `run` gave a run; and where it is not and a run is in flight, whether
/// that run's `done` said that it has ended.
pub open spec fn settled(slot: Slot, is_due: bool, started: bool, finished: bool) -> Verdict {
    if is_due {
        if started {
            Verdict::Started { preempted: slot.running }
        } else {
            Verdict::StartFailed { preempted: slot.running }
        }
    } else if slot.running && finished {
        Verdict::Reaped
    } else {
        Verdict::Kept
    }
}

/// Decides the verdict on a slot once the calls have been made. A due
/// request was answered by a start, which has given a run or has not.
/// Where no request is due, a run in flight that has ended is reaped, and
/// everything else is kept.
pub fn settle(slot: Slot, is_due: bool, started: bool, finished: bool) -> (verdict: Verdict)
    ensures
        verdict == settled(slot, is_due, started, finished),
{
    if is_due {
        if started {
            Verdict::Started { preempted: slot.running }
        } else {
            Verdict::StartFailed { preempted: slot.running }
        }
    } else if slot.running && finished {
        Verdict::Reaped
    } else {
        Verdict::Kept
    }
}

/// What a pass leaves of a slot once its verdict is settled: the slot as
/// it was, the slot of a run just started, the pending request without
/// the run that has ended, or nothing.
pub fn next_slot(slot: Slot, verdict: Verdict) -> (next: Option<Slot>)
    ensures
        next == slot_after(Some(slot), verdict),
{
    match verdict {
        Verdict::Absent => Some(slot),
        Verdict::Kept => Some(slot),
        Verdict::Started { .. } => Some(Slot { last_run_requested: None, running: true }),
        Verdict::StartFailed { .. } => None,
        Verdict::Reaped => match slot.last_run_requested {
            Some(at) => Some(Slot { last_run_requested: Some(at), running: false }),
            None => None,
        },
    }
}

/// Whether the run `run` was handed to its own `interrupt`, which has returned.
pub open spec fn interrupted<R: RunningTask>(run: R) -> bool {
    call_ensures(R::interrupt, (run,), ())
}

/// What a verdict owes to the answers of the task and of its run. `held`
/// is the run in flight before the pass and `left` the one after it. A
/// start hands on the run that the task's `run` gave, and a failed start
/// is one where it gave none; either way the run that was in flight was
/// interrupted first. A run is reaped where its `done` said yes, and kept
/// where it said no.
pub open spec fn verdict_answers<T: Task>(
    task: &T,
    held: Option<T::Running>,
    v: Verdict,
    left: Option<T::Running>,
) -> bool {
    match v {
        Verdict::Absent => held is None && left is None,
        Verdict::Kept => match held {
            Some(run) => answered(run, false) && left is Some,
            None => left is None,
        },
        Verdict::Started { .. } => (held matches Some(run) ==> interrupted(run)) && (
        left matches Some(run) && call_ensures(T::run, (task,), Some(run))),
        Verdict::StartFailed { .. } => (held matches Some(run) ==> interrupted(run)) && left
            is None && call_ensures(T::run, (task,), None::<T::Running>),
        Verdict::Reaped => left is None && (held matches Some(run) && answered(run, true)),
    }
}

struct Item<R> {
    last_run_requested: Option<u64>,
    running_task: Option<R>,
}

impl<R> Item<R> {
    spec fn slot(self) -> Slot {
        Slot {
            last_run_requested: self.last_run_requested,
            running: self.running_task is Some,
        }
    }
}

/// The dispatch engine over a fixed list of tasks. It asks each task for
/// its delay once, when it is made.
pub struct ShellGrunt2<'a, T: Task> {
    tasks: &'a [T],
    delays: Vec<i64>,
    // Maps from index into 'tasks' to the current item.
    work_items: HashMap<usize, Item<T::Running>>,
    // What has happened to each task's slot since the engine was made.
    histories: Ghost<Map<usize, Seq<Step>>>,
}

impl<'a, T: Task> View for ShellGrunt2<'a, T> {
    type V = Map<usize, Slot>;

    /// The slots, by the index of their task.
    closed spec fn view(&self) -> Map<usize, Slot> {
        Map::new(
            |k: usize| self.work_items@.contains_key(k),
            |k: usize| self.work_items@[k].slot(),
        )
    }
}

impl<'a, T: Task> ShellGrunt2<'a, T> {
    /// The tasks that the engine dispatches, by index.
    pub closed spec fn tasks(&self) -> Seq<T> {
        self.tasks@
    }

    /// The delay of each task in milliseconds, by index, as the task gave it
    /// when the engine was made.
    pub closed spec fn delays(&self) -> Seq<i64> {
        self.delays@
    }

    /// What has happened to the slot of task `k` since the engine was
    /// made: the requests stamped on it and the passes made over it, in
    /// their order.
    pub closed spec fn history(&self, k: usize) -> Seq<Step> {
        if self.histories@.contains_key(k) {
            self.histories@[k]
        } else {
            Seq::empty()
        }
    }

    /// The run of task `k` that is in flight, if there is one.
    pub closed spec fn run_in_flight(&self, k: usize) -> Option<T::Running> {
        if self.work_items@.contains_key(k) {
            self.work_items@[k].running_task
        } else {
            None
        }
    }

    /// Every task has a delay, every slot belongs to a task and is in use,
    /// a slot tells of a run exactly where one is in flight, and every
    /// slot is what its history has made of it.
    pub open spec fn wf(&self) -> bool {
        &&& self.delays().len() == self.tasks().len()
        &&& forall|k: usize|
            (#[trigger] self.run_in_flight(k) is Some) == (slot_at(self@, k) matches Some(slot)
                && slot.running)
        &&& forall|k: usize| #[trigger]
            self@.contains_key(k) ==> k < self.tasks().len() && slot_in_use(self@[k])
        &&& forall|k: usize|
            history_allowed(None, #[trigger] self.history(k), self.delays()[k as int]) && slot_at(
                self@,
                k,
            ) == slot_after_history(None, self.history(k))
    }

    /// At every moment a task has at most one run in flight: of the runs
    /// that the engine has started all but the one in flight have ended.
    pub proof fn lemma_one_run_per_task(self, k: usize)
        requires
            self.wf(),
        ensures
            runs_started(self.history(k)) == runs_ended(self.history(k)) + runs_in_flight(
                slot_at(self@, k),
            ),
            runs_started(self.history(k)) - runs_ended(self.history(k)) <= 1,
    {
        lemma_at_most_one_run(None, self.history(k), self.delays()[k as int]);
    }

    /// Debouncing. Where the clock has never gone back and all requests
    /// for a task have come within a window no longer than its delay, the
    /// engine has tried at most once to start a run of it, and has done
    /// so more than the delay after every request.
    pub proof fn lemma_debounced(self, k: usize, first: u64, last: u64)
        requires
            self.wf(),
            times_ordered(self.history(k)),
            requests_within(self.history(k), first, last),
            last - first <= self.delays()[k as int] * NANOS_PER_MILLI,
        ensures
            start_attempts(self.history(k)) <= 1,
            runs_started(self.history(k)) <= 1,
            forall|i: int, j: int|
                0 <= i < self.history(k).len() && 0 <= j < self.history(k).len() && is_attempt(
                    #[trigger] self.history(k)[j],
                ) ==> (#[trigger] self.history(k)[i] matches Step::Request { at } ==> step_time(
                    self.history(k)[j],
                ) - at > self.delays()[k as int] * NANOS_PER_MILLI),
    {
        lemma_burst_starts_once(None, self.history(k), self.delays()[k as int], first, last);
    }

    /// An engine over `tasks`, with no slot yet.
    pub fn new(tasks: &'a [T]) -> (r: Self)
        ensures
            r.wf(),
            r.tasks() == tasks@,
            r@ == Map::<usize, Slot>::empty(),
            forall|k: usize| #[trigger] r.history(k) == Seq::<Step>::empty(),
            forall|k: usize| #[trigger] r.run_in_flight(k) is None,
            forall|k: int|
                0 <= k < tasks@.len() ==> call_ensures(
                    T::start_delay,
                    (&tasks@[k],),
                    #[trigger] r.delays()[k],
                ),
    {
        let mut delays: Vec<i64> = Vec::new();
        let mut task_idx: usize = 0;
        while task_idx < tasks.len()
            invariant
                task_idx <= tasks.len(),
                delays@.len() == task_idx,
                forall|k: int|
                    0 <= k < task_idx ==> call_ensures(
                        T::start_delay,
                        (&tasks@[k],),
                        #[trigger] delays@[k],
                    ),
            decreases tasks.len() - task_idx,
        {
            let ghost given = delays@;
            let delay = tasks[task_idx].start_delay();
            delays.push(delay);
            assert forall|k: int| 0 <= k < task_idx + 1 implies call_ensures(
                T::start_delay,
                (&tasks@[k],),
                #[trigger] delays@[k],
            ) by {
                if k < task_idx {
                    assert(delays@[k] == given[k]);
                }
            }
            task_idx = task_idx + 1;
        }
        let r = ShellGrunt2 {
            tasks,
            delays,
            work_items: HashMap::new(),
            histories: Ghost(Map::empty()),
        };
        assert(r@ =~= Map::<usize, Slot>::empty());
        r
    }

    /// Takes note that task `task_idx` was asked for at clock reading `at`.
    /// An index that names no task asks for nothing.
    pub fn request(&mut self, task_idx: usize, at: u64)
        requires
            old(self).wf(),
        ensures
            final(self).wf(),
            final(self).tasks() == old(self).tasks(),
            final(self).delays() == old(self).delays(),
            task_idx < old(self).tasks().len() ==> final(self)@ == old(self)@.insert(
                task_idx,
                requested(slot_at(old(self)@, task_idx), at),
            ),
            task_idx >= old(self).tasks().len() ==> final(self)@ == old(self)@,
            forall|k: usize| #[trigger] final(self).run_in_flight(k) == old(self).run_in_flight(k),
            forall|k: usize|
                #[trigger] final(self).history(k) == if k == task_idx && k < old(
                    self,
                ).tasks().len() {
                    old(self).history(k).push(Step::Request { at })
                } else {
                    old(self).history(k)
                },
    {
        if task_idx >= self.tasks.len() {
            return ;
        }
        let entry = match self.work_items.remove(&task_idx) {
            Some(item) => Item { last_run_requested: Some(at), running_task: item.running_task },
            None => Item { last_run_requested: Some(at), running_task: None },
        };
        self.work_items.insert(task_idx, entry);
        self.record(task_idx, Ghost(Step::Request { at }));
        assert(self@ =~= old(self)@.insert(
            task_idx,
            requested(slot_at(old(self)@, task_idx), at),
        ));
        proof {
            let grown = old(self).history(task_idx).push(Step::Request { at });
            assert(grown.drop_last() == old(self).history(task_idx));
            assert forall|k: usize|
                history_allowed(None, #[trigger] self.history(k), self.delays()[k as int])
                    && slot_at(self@, k) == slot_after_history(None, self.history(k)) by {
                assert(history_allowed(None, old(self).history(k), self.delays()[k as int]));
            }
        }
    }

    /// Writes `step` into the history of task `task_idx`.
    fn record(&mut self, task_idx: usize, step: Ghost<Step>)
        ensures
            final(self).tasks == old(self).tasks,
            final(self).delays == old(self).delays,
            final(self).work_items == old(self).work_items,
            final(self).histories@ == old(self).histories@.insert(
                task_idx,
                old(self).history(task_idx).push(step@),
            ),
            final(self).history(task_idx) == old(self).history(task_idx).push(step@),
            forall|k: usize| k != task_idx ==> #[trigger] final(self).history(k) == old(
                self,
            ).history(k),
    {
        self.histories = Ghost(
            self.histories@.insert(task_idx, self.history(task_idx).push(step@)),
        );
    }

    /// Asks every task about the path of `event` and stamps a request at
    /// clock reading `at` on each task that wants it. An event without a
    /// path changes nothing.
    pub fn intake(&mut self, event: &ChangeEvent, at: u64)
        requires
            old(self).wf(),
        ensures
            final(self).wf(),
            final(self).tasks() == old(self).tasks(),
            final(self).delays() == old(self).delays(),
            event.path() is None ==> final(self)@ == old(self)@,
            forall|k: usize| #[trigger] final(self).run_in_flight(k) == old(self).run_in_flight(k),
            forall|k: usize|
                slot_at(final(self)@, k) == slot_at(old(self)@, k) || (k < old(self).tasks().len()
                    && #[trigger] slot_at(final(self)@, k) == Some(
                    requested(slot_at(old(self)@, k), at),
                )),
            forall|k: usize|
                #[trigger] final(self).history(k) == old(self).history(k) || (k < old(
                    self,
                ).tasks().len() && final(self).history(k) == old(self).history(k).push(
                    Step::Request { at },
                )),
            event.path() is None ==> forall|k: usize| #[trigger]
                final(self).history(k) == old(self).history(k),
            event.path() matches Some(path) ==> forall|k: usize|
                k < old(self).tasks().len() ==> stamped_as_asked(
                    &old(self).tasks()[k as int],
                    path,
                    at,
                    old(self).history(k),
                    #[trigger] final(self).history(k),
                ),
    {
        let path = match event.effective_path() {
            Some(path) => path.as_str(),
            None => {
                return ;
            },
        };
        let n = self.tasks.len();
        let mut task_idx: usize = 0;
        while task_idx < n
            invariant
                task_idx <= n,
                n == self.tasks().len(),
                self.wf(),
                self.tasks() == old(self).tasks(),
                self.delays() == old(self).delays(),
                forall|k: usize| #[trigger] self.run_in_flight(k) == old(self).run_in_flight(k),
                event.path() == Some(path@),
                forall|k: usize|
                    k < task_idx ==> stamped_as_asked(
                        &old(self).tasks()[k as int],
                        path@,
                        at,
                        old(self).history(k),
                        #[trigger] self.history(k),
                    ),
                forall|k: usize|
                    slot_at(self@, k) == slot_at(old(self)@, k) || (k < task_idx && #[trigger] slot_at(
                        self@,
                        k,
                    ) == Some(requested(slot_at(old(self)@, k), at))),
                forall|k: usize|
                    #[trigger] self.history(k) == old(self).history(k) || (k < task_idx
                        && self.history(k) == old(self).history(k).push(Step::Request { at })),
            decreases n - task_idx,
        {
            let ghost before = self@;
            let ghost earlier = *self;
            let wanted = self.tasks[task_idx].should_run(path);
            assert(asked(&old(self).tasks()[task_idx as int], path@, wanted));
            if wanted {
                self.request(task_idx, at);
            }
            assert forall|k: usize| k < task_idx + 1 implies stamped_as_asked(
                &old(self).tasks()[k as int],
                path@,
                at,
                old(self).history(k),
                #[trigger] self.history(k),
            ) by {
                if k == task_idx {
                    assert(earlier.history(k) == old(self).history(k));
                } else {
                    assert(self.history(k) == earlier.history(k));
                }
            }
            assert forall|k: usize|
                #[trigger] self.history(k) == old(self).history(k) || (k < task_idx + 1
                    && self.history(k) == old(self).history(k).push(Step::Request { at })) by {
                if k == task_idx {
                    assert(earlier.history(k) == old(self).history(k));
                } else {
                    assert(self.history(k) == earlier.history(k));
                }
            }
            assert forall|k: usize|
                slot_at(self@, k) == slot_at(old(self)@, k) || (k < task_idx + 1
                    && #[trigger] slot_at(self@, k) == Some(
                    requested(slot_at(old(self)@, k), at),
                )) by {
                if k == task_idx {
                    assert(slot_at(before, k) == slot_at(old(self)@, k));
                } else {
                    assert(slot_at(self@, k) == slot_at(before, k));
                }
            }
            task_idx = task_idx + 1;
        }
    }

    /// Takes in the events that have come since the last call, each
    /// stamped with the clock's reading as it is taken in, then makes one
    /// dispatch pass at the reading that follows.
    pub fn spin(&mut self, events: Vec<ChangeEvent>) -> (report: Vec<Verdict>)
        requires
            old(self).wf(),
        ensures
            final(self).wf(),
            final(self).tasks() == old(self).tasks(),
            final(self).delays() == old(self).delays(),
            report@.len() == old(self).tasks().len(),
            forall|k: usize|
                k < report@.len() ==> spin_outcome(
                    slot_at(old(self)@, k),
                    old(self).delays()[k as int],
                    #[trigger] report@[k as int],
                    slot_at(final(self)@, k),
                ),
            forall|k: usize| old(self).history(k).is_prefix_of(#[trigger] final(self).history(k)),
            forall|k: usize|
                k < report@.len() ==> (#[trigger] final(self).history(k)).len() > 0 && (
                final(self).history(k).last() matches Step::Pass { verdict, .. } && verdict
                    == report@[k as int]),
            forall|k: usize|
                k < report@.len() ==> spun(
                    &old(self).tasks()[k as int],
                    events@,
                    old(self).history(k),
                    #[trigger] report@[k as int],
                    final(self).history(k),
                ),
            forall|k: usize|
                k < report@.len() ==> verdict_answers(
                    &old(self).tasks()[k as int],
                    old(self).run_in_flight(k),
                    #[trigger] report@[k as int],
                    final(self).run_in_flight(k),
                ),
    {
        let mut i: usize = 0;
        while i < events.len()
            invariant
                i <= events.len(),
                self.wf(),
                self.tasks() == old(self).tasks(),
                self.delays() == old(self).delays(),
                forall|k: usize| #[trigger] self.run_in_flight(k) == old(self).run_in_flight(k),
                forall|k: usize|
                    k < self.tasks().len() ==> took_in(
                        &old(self).tasks()[k as int],
                        events@.take(i as int),
                        old(self).history(k),
                        #[trigger] self.history(k),
                    ),
                forall|k: usize| asked_since(slot_at(old(self)@, k), #[trigger] slot_at(self@, k)),
                forall|k: usize| old(self).history(k).is_prefix_of(#[trigger] self.history(k)),
            decreases events.len() - i,
        {
            let ghost before = self@;
            let ghost earlier = *self;
            let at = read();
            self.intake(&events[i], at);
            assert forall|k: usize| k < self.tasks().len() implies took_in(
                &old(self).tasks()[k as int],
                events@.take(i + 1),
                old(self).history(k),
                #[trigger] self.history(k),
            ) by {
                let task = &old(self).tasks()[k as int];
                let taken = events@.take(i + 1);
                assert(taken.drop_last() == events@.take(i as int));
                assert(taken.last() == events@[i as int]);
                let mid = earlier.history(k);
                assert(took_in(task, taken.drop_last(), old(self).history(k), mid));
                if events@[i as int].path() is Some {
                    assert(stamped_as_asked(
                        task,
                        events@[i as int].path()->0,
                        at,
                        mid,
                        self.history(k),
                    ));
                }
                if events@[i as int].path() is None {
                    assert(self.history(k) == mid);
                }
                assert(took_in_one(task, events@[i as int], mid, self.history(k)));
                assert(taken == events@.take(i as int).push(events@[i as int]));
                lemma_took_in_one_more(
                    task,
                    events@.take(i as int),
                    events@[i as int],
                    old(self).history(k),
                    mid,
                    self.history(k),
                );
            }
            assert forall|k: usize| old(self).history(k).is_prefix_of(
                #[trigger] self.history(k),
            ) by {
                assert(old(self).history(k).is_prefix_of(earlier.history(k)));
                assert(earlier.history(k).is_prefix_of(self.history(k)));
            }
            assert forall|k: usize| asked_since(
                slot_at(old(self)@, k),
                #[trigger] slot_at(self@, k),
            ) by {
                let earlier = slot_at(old(self)@, k);
                assert(asked_since(earlier, slot_at(before, k)));
                if slot_at(self@, k) != slot_at(before, k) {
                    assert(requested(slot_at(before, k), at) == requested(earlier, at));
                }
            }
            i = i + 1;
        }
        let ghost asked = self@;
        let ghost earlier = *self;
        let now = read();
        let report = self.check_for_new_work(now);
        assert(events@.take(events@.len() as int) == events@);
        assert forall|k: usize| k < report@.len() implies spun(
            &old(self).tasks()[k as int],
            events@,
            old(self).history(k),
            report@[k as int],
            #[trigger] self.history(k),
        ) by {
            assert(passed(earlier.history(k), now, report@[k as int], self.history(k)));
        }
        assert forall|k: usize| old(self).history(k).is_prefix_of(
            #[trigger] self.history(k),
        ) by {
            assert(old(self).history(k).is_prefix_of(earlier.history(k)));
            assert(earlier.history(k).is_prefix_of(self.history(k)));
        }
        assert forall|k: usize| k < report@.len() implies spin_outcome(
            slot_at(old(self)@, k),
            old(self).delays()[k as int],
            #[trigger] report@[k as int],
            slot_at(self@, k),
        ) by {
            assert(asked_since(slot_at(old(self)@, k), slot_at(asked, k)));
            assert(spin_possible(
                slot_at(old(self)@, k),
                slot_at(asked, k),
                now,
                old(self).delays()[k as int],
                report@[k as int],
                slot_at(self@, k),
            ));
        }
        report
    }

    /// One dispatch pass at clock reading `now`. For each task in turn: a
    /// due request interrupts the run in flight, if any, and starts a new
    /// one; otherwise a run that has ended is reaped with its slot. The
    /// report holds the verdict on each task, by index.
    pub fn check_for_new_work(&mut self, now: u64) -> (report: Vec<Verdict>)
        requires
            old(self).wf(),
        ensures
            final(self).wf(),
            final(self).tasks() == old(self).tasks(),
            final(self).delays() == old(self).delays(),
            report@.len() == old(self).tasks().len(),
            forall|k: usize|
                k < report@.len() ==> verdict_possible(
                    slot_at(old(self)@, k),
                    now,
                    old(self).delays()[k as int],
                    #[trigger] report@[k as int],
                ),
            forall|k: usize|
                k < report@.len() ==> #[trigger] slot_at(final(self)@, k) == slot_after(
                    slot_at(old(self)@, k),
                    report@[k as int],
                ),
            forall|k: usize|
                k < report@.len() ==> verdict_answers(
                    &old(self).tasks()[k as int],
                    old(self).run_in_flight(k),
                    #[trigger] report@[k as int],
                    final(self).run_in_flight(k),
                ),
            forall|k: usize|
                #[trigger] final(self).history(k) == if k < report@.len() {
                    old(self).history(k).push(Step::Pass { now, verdict: report@[k as int] })
                } else {
                    old(self).history(k)
                },
    {
        let n = self.tasks.len();
        let mut report: Vec<Verdict> = Vec::new();
        let mut task_idx: usize = 0;
        while task_idx < n
            invariant
                task_idx <= n,
                n == self.tasks().len(),
                self.wf(),
                self.tasks() == old(self).tasks(),
                self.delays() == old(self).delays(),
                report@.len() == task_idx,
                forall|k: usize|
                    k < task_idx ==> verdict_possible(
                        slot_at(old(self)@, k),
                        now,
                        old(self).delays()[k as int],
                        #[trigger] report@[k as int],
                    ),
                forall|k: usize|
                    k < task_idx ==> #[trigger] slot_at(self@, k) == slot_after(
                        slot_at(old(self)@, k),
                        report@[k as int],
                    ),
                forall|k: usize| k >= task_idx ==> #[trigger] slot_at(self@, k) == slot_at(old(self)@, k),
                forall|k: usize|
                    k < task_idx ==> verdict_answers(
                        &old(self).tasks()[k as int],
                        old(self).run_in_flight(k),
                        report@[k as int],
                        #[trigger] self.run_in_flight(k),
                    ),
                forall|k: usize|
                    k >= task_idx ==> #[trigger] self.run_in_flight(k) == old(self).run_in_flight(
                        k,
                    ),
                forall|k: usize|
                    #[trigger] self.history(k) == if k < task_idx {
                        old(self).history(k).push(Step::Pass { now, verdict: report@[k as int] })
                    } else {
                        old(self).history(k)
                    },
            decreases n - task_idx,
        {
            let ghost before = self@;
            let ghost earlier = *self;
            let ghost reported = report@;
            let verdict = self.check_task(task_idx, now);
            report.push(verdict);
            assert forall|k: usize| k < task_idx + 1 implies verdict_answers(
                &old(self).tasks()[k as int],
                old(self).run_in_flight(k),
                report@[k as int],
                #[trigger] self.run_in_flight(k),
            ) by {
                if k == task_idx {
                    assert(earlier.run_in_flight(k) == old(self).run_in_flight(k));
                } else {
                    assert(self.run_in_flight(k) == earlier.run_in_flight(k));
                    assert(report@[k as int] == reported[k as int]);
                }
            }
            assert forall|k: usize| k >= task_idx + 1 implies #[trigger] self.run_in_flight(k)
                == old(self).run_in_flight(k) by {
                assert(self.run_in_flight(k) == earlier.run_in_flight(k));
            }
            assert forall|k: usize|
                #[trigger] self.history(k) == if k < task_idx + 1 {
                    old(self).history(k).push(Step::Pass { now, verdict: report@[k as int] })
                } else {
                    old(self).history(k)
                } by {
                if k == task_idx {
                    assert(earlier.history(k) == old(self).history(k));
                } else {
                    assert(self.history(k) == earlier.history(k));
                    if k < task_idx {
                        assert(report@[k as int] == reported[k as int]);
                    }
                }
            }
            assert forall|k: usize| k < task_idx + 1 implies #[trigger] slot_at(self@, k)
                == slot_after(slot_at(old(self)@, k), report@[k as int]) by {
                if k == task_idx {
                    assert(slot_at(before, k) == slot_at(old(self)@, k));
                } else {
                    assert(slot_at(self@, k) == slot_at(before, k));
                    assert(report@[k as int] == reported[k as int]);
                }
            }
            assert forall|k: usize| k >= task_idx + 1 implies #[trigger] slot_at(self@, k)
                == slot_at(old(self)@, k) by {
                assert(slot_at(self@, k) == slot_at(before, k));
            }
            assert forall|k: usize| k < task_idx + 1 implies verdict_possible(
                slot_at(old(self)@, k),
                now,
                old(self).delays()[k as int],
                #[trigger] report@[k as int],
            ) by {
                if k == task_idx {
                    assert(slot_at(before, k) == slot_at(old(self)@, k));
                } else {
                    assert(report@[k as int] == reported[k as int]);
                }
            }
            task_idx = task_idx + 1;
        }
        report
    }

    /// The pass on one task.
    fn check_task(&mut self, task_idx: usize, now: u64) -> (verdict: Verdict)
        requires
            old(self).wf(),
            task_idx < old(self).tasks().len(),
        ensures
            final(self).wf(),
            final(self).tasks() == old(self).tasks(),
            final(self).delays() == old(self).delays(),
            verdict_possible(
                slot_at(old(self)@, task_idx),
                now,
                old(self).delays()[task_idx as int],
                verdict,
            ),
            verdict_answers(
                &old(self).tasks()[task_idx as int],
                old(self).run_in_flight(task_idx),
                verdict,
                final(self).run_in_flight(task_idx),
            ),
            final(self)@ == match slot_after(slot_at(old(self)@, task_idx), verdict) {
                Some(slot) => old(self)@.insert(task_idx, slot),
                None => old(self)@.remove(task_idx),
            },
            forall|k: usize|
                k != task_idx ==> #[trigger] final(self).run_in_flight(k) == old(
                    self,
                ).run_in_flight(k),
            forall|k: usize|
                #[trigger] final(self).history(k) == if k == task_idx {
                    old(self).history(k).push(Step::Pass { now, verdict })
                } else {
                    old(self).history(k)
                },
    {
        let verdict = match self.work_items.remove(&task_idx) {
            None => {
                assert(self@ =~= old(self)@);
                assert(self@ =~= old(self)@.remove(task_idx));
                assert(forall|k: usize| #[trigger]
                    self.run_in_flight(k) == old(self).run_in_flight(k));
                Verdict::Absent
            },
            Some(entry) => {
                assert(self@ =~= old(self)@.remove(task_idx));
                let ghost emptied = *self;
                assert(forall|k: usize|
                    k != task_idx ==> #[trigger] emptied.run_in_flight(k) == old(
                        self,
                    ).run_in_flight(k));
                let verdict = self.check_entry(task_idx, entry, now);
                assert forall|k: usize| k != task_idx implies #[trigger] self.run_in_flight(k)
                    == old(self).run_in_flight(k) by {
                    assert(self.run_in_flight(k) == emptied.run_in_flight(k));
                }
                verdict
            },
        };
        let ghost settled_engine = *self;
        self.record(task_idx, Ghost(Step::Pass { now, verdict }));
        assert(forall|k: usize| #[trigger]
            self.run_in_flight(k) == settled_engine.run_in_flight(k));
        proof {
            let grown = old(self).history(task_idx).push(Step::Pass { now, verdict });
            assert(grown.drop_last() == old(self).history(task_idx));
            assert forall|k: usize|
                history_allowed(None, #[trigger] self.history(k), self.delays()[k as int])
                    && slot_at(self@, k) == slot_after_history(None, self.history(k)) by {
                assert(history_allowed(None, old(self).history(k), self.delays()[k as int]));
            }
        }
        verdict
    }

    /// The pass on the slot of one task, which has been taken out of the
    /// slots as `entry` and is put back unless it is given up. The calls
    /// are made here; what they gave is handed to `settle` for the verdict.
    fn check_entry(&mut self, task_idx: usize, entry: Item<T::Running>, now: u64) -> (verdict:
        Verdict)
        requires
            task_idx < old(self).tasks@.len(),
            old(self).delays@.len() == old(self).tasks@.len(),
            !old(self).work_items@.contains_key(task_idx),
            slot_in_use(entry.slot()),
        ensures
            final(self).tasks == old(self).tasks,
            final(self).delays == old(self).delays,
            final(self).histories == old(self).histories,
            verdict_possible(Some(entry.slot()), now, old(self).delays@[task_idx as int], verdict),
            verdict_answers(
                &old(self).tasks@[task_idx as int],
                entry.running_task,
                verdict,
                final(self).run_in_flight(task_idx),
            ),
            final(self)@ == match slot_after(Some(entry.slot()), verdict) {
                Some(slot) => old(self)@.insert(task_idx, slot),
                None => old(self)@,
            },
            slot_after(Some(entry.slot()), verdict) matches Some(slot) ==> slot_in_use(slot),
            forall|k: usize|
                k != task_idx ==> #[trigger] final(self).run_in_flight(k) == old(
                    self,
                ).run_in_flight(k),
    {
        let mut entry = entry;
        let ghost held = entry.running_task;
        let slot = Slot {
            last_run_requested: entry.last_run_requested,
            running: entry.running_task.is_some(),
        };
        let task = &self.tasks[task_idx];
        let (verdict, run) = if is_due(entry.last_run_requested, now, self.delays[task_idx]) {
            match entry.running_task.take() {
                Some(running) => {
                    running.interrupt();
                },
                None => {},
            }
            let run = task.run();
            (settle(slot, true, run.is_some(), false), run)
        } else {
            match entry.running_task.take() {
                Some(mut running) => {
                    let finished = running.done();
                    assert(answered(held->0, finished));
                    (
                        settle(slot, false, false, finished),
                        if finished {
                            None
                        } else {
                            Some(running)
                        },
                    )
                },
                None => (settle(slot, false, false, false), None),
            }
        };
        match next_slot(slot, verdict) {
            Some(next) => {
                let kept = Item {
                    last_run_requested: next.last_run_requested,
                    running_task: run,
                };
                self.work_items.insert(task_idx, kept);
                assert(self@ =~= old(self)@.insert(task_idx, next));
            },
            None => {},
        }
        verdict
    }
}

} // verus!
