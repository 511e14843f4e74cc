//! The reactor: it keeps the wakers of parked tasks and decides when
//! each is invoked.
//!
//! Wakers wait in one of two collections. Those with a wake-up time sit
//! in a timeline, ordered by time; those waiting for RAM sit in a list,
//! in the order they arrived. Requests reach the reactor through an
//! inbox, which every operation that looks at the collections drains
//! first.

use crate::run::waker::lemma_tasks_of_push;
use crate::run::waker::tasks_of;
use crate::run::waker::SimpleWaker;
use crate::run::waker::TaskId;
use crate::simple_channel::channel;
use crate::simple_channel::Receiver;
use crate::simple_channel::Sender;
use crate::text::seconds;
use crate::text::seconds_text;
use crate::Millis;
use crate::RETRY_WAIT;
use vstd::prelude::*;

verus! {

/// When a parked task wants to be polled again.
#[derive(Debug, Clone, Copy, PartialEq, Eq, Structural)]
pub enum WakeDelay {
    /// At the current instant.
    Immediate,
    /// After the fixed back-off, [`RETRY_WAIT`].
    Retry,
    /// When any process next releases RAM.
    AfterNextRamRelease,
    /// At the given instant.
    WakeAt(Millis),
}

impl WakeDelay {
    /// The policy as it is shown in the log.
    pub open spec fn text(self) -> Seq<char> {
        match self {
            WakeDelay::Immediate => "Immediate"@,
            WakeDelay::Retry => "Retry"@,
            WakeDelay::AfterNextRamRelease => "AfterNextRamRelease"@,
            WakeDelay::WakeAt(at) => "WakeAt("@ + seconds_text(at as nat) + ")"@,
        }
    }

    /// Computes [`text`](WakeDelay::text).
    pub fn describe(&self) -> (text: String)
        ensures
            text@ == self.text(),
    {
        match self {
            WakeDelay::Immediate => "Immediate".to_owned(),
            WakeDelay::Retry => "Retry".to_owned(),
            WakeDelay::AfterNextRamRelease => "AfterNextRamRelease".to_owned(),
            WakeDelay::WakeAt(at) => {
                let mut text = "WakeAt(".to_owned();
                text.append(seconds(*at).as_str());
                text.append(")");
                text
            },
        }
    }
}

/// A scheduling request: the policy and the waker to keep.
pub type WakerWithTime = (WakeDelay, SimpleWaker);

/// The timeline as a value: instants in strictly increasing order, each
/// with the tasks to wake then, in the order they were scheduled.
pub type Timeline = Seq<(Millis, Seq<TaskId>)>;

/// The instant a retry requested at `now` falls due. The clock's range
/// ends at `u64::MAX`; a retry that would fall later is due then.
pub open spec fn retry_instant(now: Millis) -> Millis {
    if now + RETRY_WAIT <= u64::MAX {
        (now + RETRY_WAIT) as u64
    } else {
        u64::MAX
    }
}

/// The instant at which a request made at `now` is due, if it is timed.
pub open spec fn due_instant(delay: WakeDelay, now: Millis) -> Option<Millis> {
    match delay {
        WakeDelay::Immediate => Some(now),
        WakeDelay::Retry => Some(retry_instant(now)),
        WakeDelay::WakeAt(at) => Some(at),
        WakeDelay::AfterNextRamRelease => None,
    }
}

/// Instants strictly increase along the timeline and no instant is
/// without a task.
pub open spec fn timeline_wf(timeline: Timeline) -> bool {
    &&& forall|i: int, j: int|
        0 <= i < j < timeline.len() ==> (#[trigger] timeline[i]).0 < (#[trigger] timeline[j]).0
    &&& forall|i: int| 0 <= i < timeline.len() ==> (#[trigger] timeline[i]).1.len() > 0
}

/// How many entries at the front of the timeline lie before `bound`.
pub open spec fn entries_before(timeline: Timeline, bound: int) -> int
    decreases timeline.len(),
{
    if timeline.len() == 0 || timeline[0].0 >= bound {
        0
    } else {
        1 + entries_before(timeline.drop_first(), bound)
    }
}

/// The timeline after `task` was scheduled at `at`: it joins the tasks
/// already due at that instant, behind them, or the instant is entered
/// at its place in the order.
pub open spec fn scheduled_at(timeline: Timeline, at: Millis, task: TaskId) -> Timeline {
    let i = entries_before(timeline, at as int);
    if i < timeline.len() && timeline[i].0 == at {
        timeline.update(i, (at, timeline[i].1.push(task)))
    } else {
        timeline.insert(i, (at, seq![task]))
    }
}

/// The tasks of a stretch of timeline, earliest instant first and in
/// scheduling order within an instant.
pub open spec fn tasks_in(timeline: Timeline) -> Seq<TaskId>
    decreases timeline.len(),
{
    if timeline.len() == 0 {
        Seq::empty()
    } else {
        tasks_in(timeline.drop_last()) + timeline.last().1
    }
}

/// How many entries of the timeline are due at `now`: those at `now` or
/// before it.
pub open spec fn due_entries(timeline: Timeline, now: Millis) -> int {
    entries_before(timeline, now + 1)
}

/// What the reactor holds.
pub struct ReactorState {
    /// Requests not yet sorted into a collection, oldest first.
    pub inbox: Seq<(WakeDelay, TaskId)>,
    /// The wakers with a wake-up time.
    pub timeline: Timeline,
    /// The wakers waiting for RAM, in arrival order.
    pub ram: Seq<TaskId>,
}

impl ReactorState {
    /// The state is well formed when its timeline is.
    pub open spec fn wf(self) -> bool {
        timeline_wf(self.timeline)
    }

    /// The state after one request made at `now` was sorted in.
    pub open spec fn with_request(self, delay: WakeDelay, task: TaskId, now: Millis) -> ReactorState {
        match due_instant(delay, now) {
            Some(at) => ReactorState { timeline: scheduled_at(self.timeline, at, task), ..self },
            None => ReactorState { ram: self.ram.push(task), ..self },
        }
    }

    /// The state after the whole inbox was sorted in at `now`, oldest
    /// request first.
    pub open spec fn drained(self, now: Millis) -> ReactorState
        decreases self.inbox.len(),
    {
        if self.inbox.len() == 0 {
            self
        } else {
            let (delay, task) = self.inbox[0];
            ReactorState { inbox: self.inbox.drop_first(), ..self }.with_request(
                delay,
                task,
                now,
            ).drained(now)
        }
    }

    /// The tasks that a call for due wakers at `now` wakes, in order.
    pub open spec fn due_tasks(self, now: Millis) -> Seq<TaskId> {
        tasks_in(self.timeline.take(due_entries(self.timeline, now)))
    }

    /// The state once the wakers due at `now` have left the timeline.
    pub open spec fn without_due(self, now: Millis) -> ReactorState {
        ReactorState { timeline: self.timeline.skip(due_entries(self.timeline, now)), ..self }
    }

    /// The state once the wakers waiting for RAM have left.
    pub open spec fn without_ram_waiters(self) -> ReactorState {
        ReactorState { ram: Seq::empty(), ..self }
    }

    /// Nothing is parked and nothing is waiting to be sorted in.
    pub open spec fn is_empty(self) -> bool {
        self.inbox.len() == 0 && self.timeline.len() == 0 && self.ram.len() == 0
    }
}

/// Whether every task of the sequence has a handle below `count`.
pub open spec fn tasks_within(tasks: Seq<TaskId>, count: int) -> bool {
    forall|i: int| 0 <= i < tasks.len() ==> (#[trigger] tasks[i]).index < count
}

/// Whether every task in the timeline has a handle below `count`.
pub open spec fn timeline_within(timeline: Timeline, count: int) -> bool {
    forall|i: int| 0 <= i < timeline.len() ==> tasks_within((#[trigger] timeline[i]).1, count)
}

impl ReactorState {
    /// Whether every task that the reactor holds a waker for has a
    /// handle below `count`.
    pub open spec fn within(self, count: int) -> bool {
        &&& forall|i: int|
            0 <= i < self.inbox.len() ==> (#[trigger] self.inbox[i]).1.index < count
        &&& timeline_within(self.timeline, count)
        &&& tasks_within(self.ram, count)
    }
}

/// Scheduling a task with a handle below `count` keeps the handles of
/// the timeline below `count`.
pub proof fn lemma_scheduled_at_within(timeline: Timeline, at: Millis, task: TaskId, count: int)
    requires
        timeline_wf(timeline),
        timeline_within(timeline, count),
        task.index < count,
    ensures
        timeline_within(scheduled_at(timeline, at, task), count),
{
    lemma_entries_before_splits(timeline, at as int);
    let i = entries_before(timeline, at as int);
    let after = scheduled_at(timeline, at, task);
    assert forall|a: int| 0 <= a < after.len() implies tasks_within(
        (#[trigger] after[a]).1,
        count,
    ) by {
        if i < timeline.len() && timeline[i].0 == at {
            if a == i {
                assert(tasks_within(timeline[i].1, count));
                assert forall|j: int| 0 <= j < after[a].1.len() implies (
                #[trigger] after[a].1[j]).index < count by {
                    if j < timeline[i].1.len() {
                        assert(after[a].1[j] == timeline[i].1[j]);
                    }
                }
            } else {
                assert(after[a] == timeline[a]);
            }
        } else {
            if a < i {
                assert(after[a] == timeline[a]);
            } else if a > i {
                assert(after[a] == timeline[a - 1]);
            }
        }
    }
}

/// Draining the inbox keeps the handles of the reactor below `count`.
pub proof fn lemma_drained_within(state: ReactorState, now: Millis, count: int)
    requires
        state.wf(),
        state.within(count),
    ensures
        state.drained(now).within(count),
    decreases state.inbox.len(),
{
    if state.inbox.len() > 0 {
        let (delay, task) = state.inbox[0];
        let rest = ReactorState { inbox: state.inbox.drop_first(), ..state };
        assert forall|i: int| 0 <= i < rest.inbox.len() implies (#[trigger] rest.inbox[i]).1.index
            < count by {
            assert(rest.inbox[i] == state.inbox[i + 1]);
        }
        let next = rest.with_request(delay, task, now);
        lemma_with_request_wf(rest, delay, task, now);
        match due_instant(delay, now) {
            Some(at) => {
                lemma_scheduled_at_within(rest.timeline, at, task, count);
            },
            None => {},
        }
        lemma_drained_within(next, now, count);
    }
}

/// The tasks of a timeline whose handles are below `count` have handles
/// below `count`.
pub proof fn lemma_tasks_in_within(timeline: Timeline, count: int)
    requires
        timeline_within(timeline, count),
    ensures
        tasks_within(tasks_in(timeline), count),
    decreases timeline.len(),
{
    if timeline.len() > 0 {
        let rest = timeline.drop_last();
        assert forall|i: int| 0 <= i < rest.len() implies tasks_within(
            (#[trigger] rest[i]).1,
            count,
        ) by {
            assert(rest[i] == timeline[i]);
        }
        lemma_tasks_in_within(rest, count);
        assert(tasks_within(timeline[timeline.len() - 1].1, count));
    }
}

/// Invoking what is due keeps all handles below `count`: those of the
/// tasks invoked and those of the reactor left behind.
pub proof fn lemma_due_within(state: ReactorState, now: Millis, count: int)
    requires
        state.wf(),
        state.within(count),
    ensures
        tasks_within(state.due_tasks(now), count),
        state.without_due(now).within(count),
{
    lemma_entries_before_splits(state.timeline, now + 1);
    let k = due_entries(state.timeline, now);
    let due = state.timeline.take(k);
    let left = state.timeline.skip(k);
    assert forall|i: int| 0 <= i < due.len() implies tasks_within((#[trigger] due[i]).1, count) by {
        assert(due[i] == state.timeline[i]);
    }
    assert forall|i: int| 0 <= i < left.len() implies tasks_within(
        (#[trigger] left[i]).1,
        count,
    ) by {
        assert(left[i] == state.timeline[i + k]);
    }
    lemma_tasks_in_within(due, count);
}

/// Whether the timeline has `task` scheduled at some instant.
pub open spec fn timeline_holds(timeline: Timeline, task: TaskId) -> bool {
    exists|i: int| 0 <= i < timeline.len() && (#[trigger] timeline[i]).1.contains(task)
}

/// Whether the inbox has a request for `task`.
pub open spec fn inbox_holds(inbox: Seq<(WakeDelay, TaskId)>, task: TaskId) -> bool {
    exists|i: int| 0 <= i < inbox.len() && (#[trigger] inbox[i]).1 == task
}

impl ReactorState {
    /// Whether the reactor holds a waker for `task`, in its inbox or in
    /// one of its collections.
    pub open spec fn holds(self, task: TaskId) -> bool {
        inbox_holds(self.inbox, task) || timeline_holds(self.timeline, task) || self.ram.contains(
            task,
        )
    }
}

/// A timeline holds the task that is scheduled into it, and every task
/// it held before.
pub proof fn lemma_scheduled_at_holds(timeline: Timeline, at: Millis, task: TaskId, other: TaskId)
    requires
        timeline_wf(timeline),
        other == task || timeline_holds(timeline, other),
    ensures
        timeline_holds(scheduled_at(timeline, at, task), other),
{
    lemma_entries_before_splits(timeline, at as int);
    let i = entries_before(timeline, at as int);
    let after = scheduled_at(timeline, at, task);
    if i < timeline.len() && timeline[i].0 == at {
        if other == task {
            assert(after[i].1[timeline[i].1.len() as int] == task);
            assert(after[i].1.contains(task));
        } else {
            let k = choose|k: int| 0 <= k < timeline.len() && (#[trigger] timeline[k]).1.contains(
                other,
            );
            if k == i {
                let j = choose|j: int| 0 <= j < timeline[i].1.len() && timeline[i].1[j] == other;
                assert(after[i].1[j] == other);
                assert(after[i].1.contains(other));
            } else {
                assert(after[k] == timeline[k]);
            }
        }
    } else {
        if other == task {
            assert(after[i].1[0] == task);
            assert(after[i].1.contains(task));
        } else {
            let k = choose|k: int| 0 <= k < timeline.len() && (#[trigger] timeline[k]).1.contains(
                other,
            );
            if k < i {
                assert(after[k] == timeline[k]);
            } else {
                assert(after[k + 1] == timeline[k]);
            }
        }
    }
}

/// Draining the inbox loses no task: what the reactor held, it holds.
pub proof fn lemma_drained_holds(state: ReactorState, now: Millis, task: TaskId)
    requires
        state.wf(),
        state.holds(task),
    ensures
        state.drained(now).holds(task),
    decreases state.inbox.len(),
{
    if state.inbox.len() > 0 {
        let (delay, first) = state.inbox[0];
        let rest = ReactorState { inbox: state.inbox.drop_first(), ..state };
        let next = rest.with_request(delay, first, now);
        lemma_with_request_wf(rest, delay, first, now);
        if inbox_holds(state.inbox, task) {
            let i = choose|i: int| 0 <= i < state.inbox.len() && (#[trigger] state.inbox[i]).1
                == task;
            if i == 0 {
                match due_instant(delay, now) {
                    Some(at) => {
                        lemma_scheduled_at_holds(rest.timeline, at, first, task);
                    },
                    None => {
                        assert(next.ram[rest.ram.len() as int] == task);
                    },
                }
            } else {
                assert(rest.inbox[i - 1] == state.inbox[i]);
                assert(inbox_holds(next.inbox, task));
            }
        } else if timeline_holds(state.timeline, task) {
            match due_instant(delay, now) {
                Some(at) => {
                    lemma_scheduled_at_holds(rest.timeline, at, first, task);
                },
                None => {},
            }
        } else {
            let j = choose|j: int| 0 <= j < state.ram.len() && state.ram[j] == task;
            match due_instant(delay, now) {
                Some(at) => {},
                None => {
                    assert(next.ram[j] == task);
                },
            }
        }
        lemma_drained_holds(next, now, task);
    }
}

/// The tasks of a timeline are the tasks that it has scheduled.
pub proof fn lemma_tasks_in_holds(timeline: Timeline, task: TaskId)
    requires
        timeline_holds(timeline, task),
    ensures
        tasks_in(timeline).contains(task),
    decreases timeline.len(),
{
    let i = choose|i: int| 0 <= i < timeline.len() && (#[trigger] timeline[i]).1.contains(task);
    let rest = timeline.drop_last();
    let last = timeline.last().1;
    if i == timeline.len() - 1 {
        let j = choose|j: int| 0 <= j < last.len() && last[j] == task;
        assert(tasks_in(timeline)[tasks_in(rest).len() + j] == task);
    } else {
        assert(rest[i] == timeline[i]);
        lemma_tasks_in_holds(rest, task);
        let j = choose|j: int| 0 <= j < tasks_in(rest).len() && tasks_in(rest)[j] == task;
        assert(tasks_in(timeline)[j] == task);
    }
}

/// Invoking what is due loses no task: what the reactor held is among
/// the tasks invoked or is held by what is left.
pub proof fn lemma_due_holds(state: ReactorState, now: Millis, task: TaskId)
    requires
        state.wf(),
        state.holds(task),
    ensures
        state.due_tasks(now).contains(task) || state.without_due(now).holds(task),
{
    lemma_entries_before_splits(state.timeline, now + 1);
    let k = due_entries(state.timeline, now);
    if timeline_holds(state.timeline, task) {
        let i = choose|i: int|
            0 <= i < state.timeline.len() && (#[trigger] state.timeline[i]).1.contains(task);
        if i < k {
            assert(state.timeline.take(k)[i] == state.timeline[i]);
            assert(timeline_holds(state.timeline.take(k), task));
            lemma_tasks_in_holds(state.timeline.take(k), task);
        } else {
            assert(state.timeline.skip(k)[i - k] == state.timeline[i]);
            assert(timeline_holds(state.timeline.skip(k), task));
        }
    }
}

/// The requests of an inbox as plain values.
pub open spec fn requests_of(inbox: Seq<WakerWithTime>) -> Seq<(WakeDelay, TaskId)> {
    inbox.map_values(|r: WakerWithTime| (r.0, r.1@))
}

/// The count of entries before a bound is the place where the entries
/// stop lying before it.
pub proof fn lemma_entries_before(timeline: Timeline, bound: int, i: int)
    requires
        0 <= i <= timeline.len(),
        forall|j: int| 0 <= j < i ==> (#[trigger] timeline[j]).0 < bound,
        i < timeline.len() ==> timeline[i].0 >= bound,
    ensures
        entries_before(timeline, bound) == i,
    decreases timeline.len(),
{
    if timeline.len() == 0 || timeline[0].0 >= bound {
        if i > 0 {
            assert(timeline[0].0 < bound);
        }
    } else {
        let rest = timeline.drop_first();
        assert(i > 0);
        assert forall|j: int| 0 <= j < i - 1 implies (#[trigger] rest[j]).0 < bound by {
            assert(rest[j] == timeline[j + 1]);
        }
        lemma_entries_before(rest, bound, i - 1);
    }
}

/// In a well-formed timeline the entries before a bound are exactly its
/// first `entries_before` entries.
pub proof fn lemma_entries_before_splits(timeline: Timeline, bound: int)
    requires
        timeline_wf(timeline),
    ensures
        0 <= entries_before(timeline, bound) <= timeline.len(),
        forall|j: int|
            0 <= j < entries_before(timeline, bound) ==> (#[trigger] timeline[j]).0 < bound,
        forall|j: int|
            entries_before(timeline, bound) <= j < timeline.len() ==> (#[trigger] timeline[j]).0
                >= bound,
    decreases timeline.len(),
{
    if timeline.len() == 0 || timeline[0].0 >= bound {
        assert forall|j: int| 0 <= j < timeline.len() implies (#[trigger] timeline[j]).0
            >= bound by {
            if j > 0 {
                assert(timeline[0].0 < timeline[j].0);
            }
        }
    } else {
        let rest = timeline.drop_first();
        assert forall|a: int, b: int| 0 <= a < b < rest.len() implies (#[trigger] rest[a]).0 < (
        #[trigger] rest[b]).0 by {
            assert(rest[a] == timeline[a + 1]);
            assert(rest[b] == timeline[b + 1]);
        }
        assert forall|a: int| 0 <= a < rest.len() implies (#[trigger] rest[a]).1.len() > 0 by {
            assert(rest[a] == timeline[a + 1]);
        }
        lemma_entries_before_splits(rest, bound);
        let k = entries_before(rest, bound);
        assert forall|j: int| 0 <= j < k + 1 implies (#[trigger] timeline[j]).0 < bound by {
            if j > 0 {
                assert(timeline[j] == rest[j - 1]);
            }
        }
        assert forall|j: int| k + 1 <= j < timeline.len() implies (#[trigger] timeline[j]).0
            >= bound by {
            assert(timeline[j] == rest[j - 1]);
        }
    }
}

/// Scheduling keeps a timeline well formed.
pub proof fn lemma_scheduled_at_wf(timeline: Timeline, at: Millis, task: TaskId)
    requires
        timeline_wf(timeline),
    ensures
        timeline_wf(scheduled_at(timeline, at, task)),
{
    lemma_entries_before_splits(timeline, at as int);
    let i = entries_before(timeline, at as int);
    let after = scheduled_at(timeline, at, task);
    if i < timeline.len() && timeline[i].0 == at {
        assert forall|a: int, b: int| 0 <= a < b < after.len() implies (#[trigger] after[a]).0 < (
        #[trigger] after[b]).0 by {
            assert(after[a].0 == timeline[a].0);
            assert(after[b].0 == timeline[b].0);
        }
        assert forall|a: int| 0 <= a < after.len() implies (#[trigger] after[a]).1.len() > 0 by {
            if a != i {
                assert(after[a] == timeline[a]);
            }
        }
    } else {
        assert forall|a: int, b: int| 0 <= a < b < after.len() implies (#[trigger] after[a]).0 < (
        #[trigger] after[b]).0 by {
            if a < i {
                assert(after[a] == timeline[a]);
            } else if a > i {
                assert(after[a] == timeline[a - 1]);
            }
            if b < i {
                assert(after[b] == timeline[b]);
            } else if b > i {
                assert(after[b] == timeline[b - 1]);
            }
        }
        assert forall|a: int| 0 <= a < after.len() implies (#[trigger] after[a]).1.len() > 0 by {
            if a < i {
                assert(after[a] == timeline[a]);
            } else if a > i {
                assert(after[a] == timeline[a - 1]);
            }
        }
    }
}

/// Sorting a request in keeps a state well formed.
pub proof fn lemma_with_request_wf(state: ReactorState, delay: WakeDelay, task: TaskId, now: Millis)
    requires
        state.wf(),
    ensures
        state.with_request(delay, task, now).wf(),
{
    match due_instant(delay, now) {
        Some(at) => lemma_scheduled_at_wf(state.timeline, at, task),
        None => {},
    }
}

/// Draining the inbox keeps a state well formed and leaves the inbox
/// empty.
pub proof fn lemma_drained_wf(state: ReactorState, now: Millis)
    requires
        state.wf(),
    ensures
        state.drained(now).wf(),
        state.drained(now).inbox.len() == 0,
    decreases state.inbox.len(),
{
    if state.inbox.len() > 0 {
        let (delay, task) = state.inbox[0];
        let rest = ReactorState { inbox: state.inbox.drop_first(), ..state };
        lemma_with_request_wf(rest, delay, task, now);
        lemma_drained_wf(rest.with_request(delay, task, now), now);
    }
}


/// Taking one more entry of a timeline adds that entry's tasks at the end.
pub proof fn lemma_tasks_in_take(timeline: Timeline, k: int)
    requires
        0 <= k < timeline.len(),
    ensures
        tasks_in(timeline.take(k + 1)) == tasks_in(timeline.take(k)) + timeline[k].1,
{
    let longer = timeline.take(k + 1);
    assert(longer.drop_last() =~= timeline.take(k));
    assert(longer.last() == timeline[k]);
}

/// The tasks due at one instant of a timeline, in scheduling order;
/// none where the timeline has no such instant.
pub open spec fn tasks_at(timeline: Timeline, at: Millis) -> Seq<TaskId> {
    let i = entries_before(timeline, at as int);
    if i < timeline.len() && timeline[i].0 == at {
        timeline[i].1
    } else {
        Seq::empty()
    }
}

/// What is left of a well-formed timeline behind its first entries is
/// well formed.
pub proof fn lemma_skip_wf(timeline: Timeline, k: int)
    requires
        timeline_wf(timeline),
        0 <= k <= timeline.len(),
    ensures
        timeline_wf(timeline.skip(k)),
{
    let rest = timeline.skip(k);
    assert forall|a: int, b: int| 0 <= a < b < rest.len() implies (#[trigger] rest[a]).0 < (
    #[trigger] rest[b]).0 by {
        assert(rest[a] == timeline[a + k]);
        assert(rest[b] == timeline[b + k]);
    }
    assert forall|a: int| 0 <= a < rest.len() implies (#[trigger] rest[a]).1.len() > 0 by {
        assert(rest[a] == timeline[a + k]);
    }
}

/// A task scheduled at `now` is due at `now`, once, and behind every
/// task that was due then already: invoking what is due at `now` invokes
/// the tasks that were due before, then this one, and leaves the same
/// timeline behind as if the task had never been scheduled.
pub proof fn lemma_scheduled_now_is_due(timeline: Timeline, now: Millis, task: TaskId)
    requires
        timeline_wf(timeline),
    ensures
        ({
            let after = scheduled_at(timeline, now, task);
            &&& tasks_in(after.take(due_entries(after, now))) == tasks_in(
                timeline.take(due_entries(timeline, now)),
            ).push(task)
            &&& after.skip(due_entries(after, now)) == timeline.skip(due_entries(timeline, now))
        }),
{
    let after = scheduled_at(timeline, now, task);
    let k = entries_before(timeline, now as int);
    lemma_entries_before_splits(timeline, now as int);
    lemma_scheduled_at_wf(timeline, now, task);
    if k < timeline.len() && timeline[k].0 == now {
        assert forall|j: int| 0 <= j < k + 1 implies (#[trigger] timeline[j]).0 < now + 1 by {
            if j < k {
                assert(timeline[j].0 < now);
            }
        }
        if k + 1 < timeline.len() {
            assert(timeline[k].0 < timeline[k + 1].0);
        }
        lemma_entries_before(timeline, now + 1, k + 1);
        assert forall|j: int| 0 <= j < k + 1 implies (#[trigger] after[j]).0 < now + 1 by {
            assert(after[j].0 == timeline[j].0);
        }
        if k + 1 < after.len() {
            assert(after[k + 1] == timeline[k + 1]);
        }
        lemma_entries_before(after, now + 1, k + 1);
        lemma_tasks_in_take(after, k);
        lemma_tasks_in_take(timeline, k);
        assert(after.take(k) =~= timeline.take(k));
        assert(tasks_in(after.take(k)) + timeline[k].1.push(task) =~= (tasks_in(timeline.take(k))
            + timeline[k].1).push(task));
        assert(after.skip(k + 1) =~= timeline.skip(k + 1));
    } else {
        assert forall|j: int| 0 <= j < k implies (#[trigger] timeline[j]).0 < now + 1 by {
            assert(timeline[j].0 < now);
        }
        if k < timeline.len() {
            assert(timeline[k].0 >= now);
        }
        lemma_entries_before(timeline, now + 1, k);
        assert forall|j: int| 0 <= j < k + 1 implies (#[trigger] after[j]).0 < now + 1 by {
            if j < k {
                assert(after[j] == timeline[j]);
            }
        }
        if k + 1 < after.len() {
            assert(after[k + 1] == timeline[k]);
        }
        lemma_entries_before(after, now + 1, k + 1);
        lemma_tasks_in_take(after, k);
        assert(after.take(k) =~= timeline.take(k));
        assert(tasks_in(timeline.take(k)) + seq![task] =~= tasks_in(timeline.take(k)).push(task));
        assert(after.skip(k + 1) =~= timeline.skip(k));
    }
}

/// A task scheduled for later than `now` is not due at `now`: invoking
/// what is due at `now` invokes the tasks it would have invoked without
/// it, and the task stays scheduled in what is left of the timeline.
pub proof fn lemma_scheduled_later_is_kept(timeline: Timeline, at: Millis, task: TaskId, now: Millis)
    requires
        timeline_wf(timeline),
        at > now,
    ensures
        ({
            let after = scheduled_at(timeline, at, task);
            let due = due_entries(timeline, now);
            &&& due_entries(after, now) == due
            &&& after.take(due) == timeline.take(due)
            &&& after.skip(due) == scheduled_at(timeline.skip(due), at, task)
        }),
{
    let after = scheduled_at(timeline, at, task);
    let k = entries_before(timeline, at as int);
    let due = due_entries(timeline, now);
    lemma_entries_before_splits(timeline, at as int);
    lemma_entries_before_splits(timeline, now + 1);
    assert(due <= k) by {
        if due > k {
            assert(timeline[k].0 < now + 1);
            assert(timeline[k].0 >= at);
        }
    }
    let rest = timeline.skip(due);
    assert forall|j: int| 0 <= j < k - due implies (#[trigger] rest[j]).0 < at by {
        assert(rest[j] == timeline[j + due]);
    }
    if k - due < rest.len() {
        assert(rest[k - due] == timeline[k]);
    }
    lemma_entries_before(rest, at as int, k - due);
    assert forall|j: int| 0 <= j < due implies (#[trigger] after[j]).0 < now + 1 by {
        assert(after[j] == timeline[j]);
    }
    if due < after.len() {
        if due < k {
            assert(after[due] == timeline[due]);
        } else if k < timeline.len() && timeline[k].0 == at {
            assert(after[due].0 == at);
        } else {
            assert(after[due].0 == at);
        }
    }
    lemma_entries_before(after, now + 1, due);
    assert(after.take(due) =~= timeline.take(due));
    assert(after.skip(due) =~= scheduled_at(rest, at, task));
}

/// A request handed in last is sorted in last: draining an inbox with
/// one more request at its end gives what draining without it gives,
/// with that request sorted in afterwards.
pub proof fn lemma_drained_push(state: ReactorState, delay: WakeDelay, task: TaskId, now: Millis)
    ensures
        (ReactorState { inbox: state.inbox.push((delay, task)), ..state }).drained(now)
            == state.drained(now).with_request(delay, task, now),
    decreases state.inbox.len(),
{
    let longer = ReactorState { inbox: state.inbox.push((delay, task)), ..state };
    if state.inbox.len() == 0 {
        assert(longer.inbox.drop_first() =~= state.inbox);
        assert(longer.inbox[0] == (delay, task));
        let sorted = ReactorState { inbox: longer.inbox.drop_first(), ..longer }.with_request(
            delay,
            task,
            now,
        );
        assert(sorted.inbox.len() == 0);
        assert(sorted.drained(now) == sorted);
    } else {
        let (first_delay, first_task) = state.inbox[0];
        let next = ReactorState { inbox: state.inbox.drop_first(), ..state }.with_request(
            first_delay,
            first_task,
            now,
        );
        assert(longer.inbox.drop_first() =~= state.inbox.drop_first().push((delay, task)));
        assert(longer.inbox[0] == state.inbox[0]);
        lemma_drained_push(next, delay, task, now);
        assert(ReactorState { inbox: longer.inbox.drop_first(), ..longer }.with_request(
            first_delay,
            first_task,
            now,
        ) == ReactorState { inbox: next.inbox.push((delay, task)), ..next });
    }
}

/// An immediate request is served once at the same instant.
///
/// Take a reactor in any well-formed state, hand it a request to wake
/// `task` immediately, and invoke the due wakers at `now`. The tasks
/// invoked are those that would have been invoked without the request,
/// followed by `task`, once; and the reactor is left as it would have
/// been left without the request, so the task is not invoked again.
pub proof fn lemma_immediate_is_invoked_once(state: ReactorState, task: TaskId, now: Millis)
    requires
        state.wf(),
    ensures
        ({
            let asked = ReactorState {
                inbox: state.inbox.push((WakeDelay::Immediate, task)),
                ..state
            };
            &&& asked.drained(now).due_tasks(now) == state.drained(now).due_tasks(now).push(task)
            &&& asked.drained(now).without_due(now) == state.drained(now).without_due(now)
        }),
{
    lemma_drained_push(state, WakeDelay::Immediate, task, now);
    lemma_drained_wf(state, now);
    lemma_scheduled_now_is_due(state.drained(now).timeline, now, task);
}

/// A request to wake at a later time is served at that time and not
/// before.
///
/// Take a reactor in any well-formed state and hand it a request to
/// wake `task` at `at`. Invoking the due wakers at an earlier `now`
/// invokes the tasks that would have been invoked without the request,
/// and not `task` on its account. Invoking the due wakers again at
/// `at`, with nothing handed in between, invokes what would have been
/// invoked then without the request, followed by `task`, once.
pub proof fn lemma_wake_at_is_invoked_at_its_time(
    state: ReactorState,
    task: TaskId,
    at: Millis,
    now: Millis,
)
    requires
        state.wf(),
        now < at,
    ensures
        ({
            let asked = ReactorState {
                inbox: state.inbox.push((WakeDelay::WakeAt(at), task)),
                ..state
            };
            let early = asked.drained(now).without_due(now);
            let early_without = state.drained(now).without_due(now);
            &&& asked.drained(now).due_tasks(now) == state.drained(now).due_tasks(now)
            &&& early.drained(at).due_tasks(at) == early_without.drained(at).due_tasks(at).push(
                task,
            )
            &&& early.drained(at).without_due(at) == early_without.drained(at).without_due(at)
        }),
{
    let asked = ReactorState { inbox: state.inbox.push((WakeDelay::WakeAt(at), task)), ..state };
    let sorted = state.drained(now);
    lemma_drained_push(state, WakeDelay::WakeAt(at), task, now);
    lemma_drained_wf(state, now);
    lemma_scheduled_later_is_kept(sorted.timeline, at, task, now);
    let due = due_entries(sorted.timeline, now);
    lemma_entries_before_splits(sorted.timeline, now + 1);
    lemma_skip_wf(sorted.timeline, due);
    lemma_scheduled_now_is_due(sorted.timeline.skip(due), at, task);
    let early = asked.drained(now).without_due(now);
    let early_without = sorted.without_due(now);
    assert(early.inbox.len() == 0);
    assert(early_without.inbox.len() == 0);
    assert(early.drained(at) == early);
    assert(early_without.drained(at) == early_without);
}

/// The wakers due at one instant.
#[derive(Debug)]
pub struct TimeSlot {
    at: Millis,
    wakers: Vec<SimpleWaker>,
}

/// The wakers that have a wake-up time, kept in the order of their times.
#[derive(Debug)]
pub struct WakersByTime {
    slots: Vec<TimeSlot>,
}

/// The wakers that wait for RAM, in arrival order.
pub type WakersInOrder = Vec<SimpleWaker>;

impl View for WakersByTime {
    type V = Timeline;

    closed spec fn view(&self) -> Timeline {
        Seq::new(
            self.slots@.len(),
            |i: int| (self.slots@[i].at, tasks_of(self.slots@[i].wakers@)),
        )
    }
}

impl WakersByTime {
    /// The invariant of the collection: see [`timeline_wf`].
    pub open spec fn wf(&self) -> bool {
        timeline_wf(self@)
    }

    /// An empty timeline.
    pub fn new() -> (made: Self)
        ensures
            made@.len() == 0,
            made.wf(),
    {
        WakersByTime { slots: Vec::new() }
    }

    /// The number of instants that have a waker.
    pub fn len(&self) -> (n: usize)
        ensures
            n == self@.len(),
    {
        self.slots.len()
    }

    /// Whether no waker is kept.
    pub fn is_empty(&self) -> (empty: bool)
        ensures
            empty == (self@.len() == 0),
    {
        self.slots.len() == 0
    }

    /// The earliest instant with a waker: no instant in the timeline is
    /// earlier.
    pub fn first_instant(&self) -> (first: Option<Millis>)
        requires
            self.wf(),
        ensures
            first is None <==> self@.len() == 0,
            first is Some ==> first->0 == self@[0].0,
            first is Some ==> forall|i: int|
                0 <= i < self@.len() ==> first->0 <= (#[trigger] self@[i]).0,
    {
        if self.slots.len() == 0 {
            None
        } else {
            proof {
                assert forall|i: int| 0 <= i < self@.len() implies self@[0].0 <= (
                #[trigger] self@[i]).0 by {
                    if i > 0 {
                        assert(self@[0].0 < self@[i].0);
                    }
                }
            }
            Some(self.slots[0].at)
        }
    }

    /// Schedules `waker` at `at`.
    pub fn insert(&mut self, at: Millis, waker: SimpleWaker)
        requires
            old(self).wf(),
        ensures
            final(self)@ == scheduled_at(old(self)@, at, waker@),
            final(self).wf(),
    {
        let ghost task = waker@;
        let mut i: usize = 0;
        while i < self.slots.len() && self.slots[i].at < at
            invariant
                i <= self.slots@.len(),
                forall|j: int| 0 <= j < i ==> (#[trigger] self@[j]).0 < at,
            decreases self.slots@.len() - i,
        {
            i += 1;
        }
        proof {
            lemma_entries_before(self@, at as int, i as int);
            lemma_scheduled_at_wf(self@, at, task);
        }
        if i < self.slots.len() && self.slots[i].at == at {
            let ghost before = self.slots@[i as int].wakers@;
            let slot = &mut self.slots[i];
            slot.wakers.push(waker);
            proof {
                lemma_tasks_of_push(before, waker);
                assert(self@ =~= old(self)@.update(
                    i as int,
                    (at, old(self)@[i as int].1.push(task)),
                ));
            }
        } else {
            let mut wakers: Vec<SimpleWaker> = Vec::new();
            wakers.push(waker);
            proof {
                assert(tasks_of(wakers@) =~= seq![task]);
            }
            self.slots.insert(i, TimeSlot { at, wakers });
            proof {
                assert(self@ =~= old(self)@.insert(i as int, (at, seq![task])));
            }
        }
    }

    /// Copies of the wakers due at `at`, in scheduling order.
    pub fn wakers_at(&self, at: Millis) -> (found: Vec<SimpleWaker>)
        requires
            self.wf(),
        ensures
            tasks_of(found@) == tasks_at(self@, at),
    {
        let mut i: usize = 0;
        while i < self.slots.len() && self.slots[i].at < at
            invariant
                i <= self.slots@.len(),
                forall|j: int| 0 <= j < i ==> (#[trigger] self@[j]).0 < at,
            decreases self.slots@.len() - i,
        {
            i += 1;
        }
        proof {
            lemma_entries_before(self@, at as int, i as int);
        }
        let mut found: Vec<SimpleWaker> = Vec::new();
        if i < self.slots.len() && self.slots[i].at == at {
            let slot = &self.slots[i];
            let mut j: usize = 0;
            while j < slot.wakers.len()
                invariant
                    j <= slot.wakers@.len(),
                    tasks_of(found@) == tasks_of(slot.wakers@).take(j as int),
                decreases slot.wakers@.len() - j,
            {
                let copy = slot.wakers[j].clone();
                proof {
                    lemma_tasks_of_push(found@, copy);
                    assert(tasks_of(slot.wakers@).take(j + 1) =~= tasks_of(slot.wakers@).take(
                        j as int,
                    ).push(copy@));
                }
                found.push(copy);
                j += 1;
            }
            proof {
                assert(tasks_of(slot.wakers@).take(j as int) =~= tasks_of(slot.wakers@));
            }
        } else {
            proof {
                assert(tasks_of(found@) =~= Seq::<TaskId>::empty());
            }
        }
        found
    }

    /// Invokes every waker that is due at `now`, earliest instant first
    /// and in scheduling order within an instant, and removes it.
    /// Returns how many were invoked. Wakers due later stay.
    pub fn wake_due(&mut self, now: Millis, woken_rx: &mut Receiver<TaskId>) -> (woken: usize)
        requires
            old(self).wf(),
        ensures
            final(self).wf(),
            final(self)@ == old(self)@.skip(due_entries(old(self)@, now)),
            final(woken_rx)@ == old(woken_rx)@ + tasks_in(
                old(self)@.take(due_entries(old(self)@, now)),
            ),
            woken == tasks_in(old(self)@.take(due_entries(old(self)@, now))).len(),
            forall|i: int| 0 <= i < final(self)@.len() ==> (#[trigger] final(self)@[i]).0 > now,
    {
        let len_before = woken_rx.len();
        let mut k: usize = 0;
        proof {
            assert(old(self)@.take(0) =~= Seq::<(Millis, Seq<TaskId>)>::empty());
            assert(woken_rx@ =~= old(woken_rx)@ + tasks_in(old(self)@.take(0)));
        }
        while k < self.slots.len() && self.slots[k].at <= now
            invariant
                k <= self.slots@.len(),
                forall|j: int| 0 <= j < k ==> (#[trigger] self@[j]).0 < now + 1,
                woken_rx@ == old(woken_rx)@ + tasks_in(self@.take(k as int)),
            decreases self.slots@.len() - k,
        {
            let slot = &self.slots[k];
            let ghost base = woken_rx@;
            let mut j: usize = 0;
            proof {
                assert(woken_rx@ =~= base + tasks_of(slot.wakers@).take(0));
            }
            while j < slot.wakers.len()
                invariant
                    j <= slot.wakers@.len(),
                    woken_rx@ == base + tasks_of(slot.wakers@).take(j as int),
                decreases slot.wakers@.len() - j,
            {
                slot.wakers[j].wake_by_ref(woken_rx);
                proof {
                    assert(tasks_of(slot.wakers@).take(j + 1) =~= tasks_of(slot.wakers@).take(
                        j as int,
                    ).push(slot.wakers@[j as int]@));
                    assert(woken_rx@ =~= base + tasks_of(slot.wakers@).take(j + 1));
                }
                j += 1;
            }
            proof {
                assert(tasks_of(slot.wakers@).take(j as int) =~= self@[k as int].1);
                lemma_tasks_in_take(self@, k as int);
                assert(woken_rx@ =~= old(woken_rx)@ + tasks_in(self@.take(k + 1)));
            }
            k += 1;
        }
        proof {
            lemma_entries_before(self@, now + 1, k as int);
            lemma_entries_before_splits(self@, now + 1);
        }
        let len_after = woken_rx.len();
        let rest = self.slots.split_off(k);
        self.slots = rest;
        proof {
            assert(self@ =~= old(self)@.skip(k as int));
            assert forall|i: int| 0 <= i < self@.len() implies (#[trigger] self@[i]).0 > now by {
                assert(self@[i] == old(self)@[i + k]);
            }
            assert forall|a: int, b: int| 0 <= a < b < self@.len() implies (#[trigger] self@[a]).0
                < (#[trigger] self@[b]).0 by {
                assert(self@[a] == old(self)@[a + k]);
                assert(self@[b] == old(self)@[b + k]);
            }
            assert forall|a: int| 0 <= a < self@.len() implies (#[trigger] self@[a]).1.len()
                > 0 by {
                assert(self@[a] == old(self)@[a + k]);
            }
        }
        len_after - len_before
    }
}


/// The reactor.
#[derive(Debug)]
pub struct BitburnerReactor {
    reactor_tx: Sender<WakerWithTime>,
    reactor_rx: Receiver<WakerWithTime>,
    wakers_running: WakersByTime,
    wakers_ram: WakersInOrder,
}

impl View for BitburnerReactor {
    type V = ReactorState;

    closed spec fn view(&self) -> ReactorState {
        ReactorState {
            inbox: requests_of(self.reactor_rx@),
            timeline: self.wakers_running@,
            ram: tasks_of(self.wakers_ram@),
        }
    }
}

impl BitburnerReactor {
    /// The invariant of the reactor: see [`ReactorState::wf`].
    pub open spec fn wf(&self) -> bool {
        self@.wf()
    }

    /// A reactor that holds nothing.
    pub fn new() -> (made: Self)
        ensures
            made.wf(),
            made@.is_empty(),
    {
        let (reactor_tx, reactor_rx) = channel::<WakerWithTime>();
        let made = BitburnerReactor {
            reactor_tx,
            reactor_rx,
            wakers_running: WakersByTime::new(),
            wakers_ram: Vec::new(),
        };
        proof {
            assert(made@.inbox =~= Seq::<(WakeDelay, TaskId)>::empty());
            assert(made@.ram =~= Seq::<TaskId>::empty());
        }
        made
    }

    /// Hands a request to the reactor. It goes to the inbox, and into
    /// its collection when the inbox is next drained.
    pub fn schedule(&mut self, delay: WakeDelay, waker: SimpleWaker)
        requires
            old(self).wf(),
        ensures
            final(self).wf(),
            final(self)@ == (ReactorState {
                inbox: old(self)@.inbox.push((delay, waker@)),
                ..old(self)@
            }),
    {
        let ghost task = waker@;
        let _ = self.reactor_tx.send(&mut self.reactor_rx, (delay, waker));
        proof {
            assert(self@.inbox =~= old(self)@.inbox.push((delay, task)));
        }
    }

    /// Drains the inbox at `now`, then gives the earliest wake-up time
    /// among the timed wakers, or `None` where there is none. No time
    /// in the timeline is earlier than the one returned.
    pub fn next_wake(&mut self, now: Millis) -> (next: Option<Millis>)
        requires
            old(self).wf(),
        ensures
            final(self).wf(),
            final(self)@ == old(self)@.drained(now),
            final(self)@.inbox.len() == 0,
            next is None <==> final(self)@.timeline.len() == 0,
            next is Some ==> next->0 == final(self)@.timeline[0].0,
            next is Some ==> forall|i: int|
                0 <= i < final(self)@.timeline.len() ==> next->0 <= (
                #[trigger] final(self)@.timeline[i]).0,
    {
        self.drain_queue(now);
        self.wakers_running.first_instant()
    }

    /// Drains the inbox at `now`, then says whether both collections
    /// are empty.
    pub fn is_empty(&mut self, now: Millis) -> (empty: bool)
        requires
            old(self).wf(),
        ensures
            final(self).wf(),
            final(self)@ == old(self)@.drained(now),
            final(self)@.inbox.len() == 0,
            empty == final(self)@.is_empty(),
    {
        self.drain_queue(now);
        self.wakers_ram.len() == 0 && self.wakers_running.is_empty()
    }

    /// Whether no timed waker is sorted in. Does not drain the inbox.
    pub fn has_no_running(&self) -> (none: bool)
        ensures
            none == (self@.timeline.len() == 0),
    {
        self.wakers_running.is_empty()
    }

    /// The number of requests in the inbox.
    pub fn pending_len(&self) -> (n: usize)
        ensures
            n == self@.inbox.len(),
    {
        self.reactor_rx.len()
    }

    /// The number of instants in the timeline.
    pub fn running_len(&self) -> (n: usize)
        ensures
            n == self@.timeline.len(),
    {
        self.wakers_running.len()
    }

    /// The number of wakers that wait for RAM.
    pub fn ram_len(&self) -> (n: usize)
        ensures
            n == self@.ram.len(),
    {
        self.wakers_ram.len()
    }

    /// Sorts every request of the inbox into its collection, oldest
    /// first, reading `Immediate` and `Retry` against `now`.
    pub fn drain_queue(&mut self, now: Millis)
        requires
            old(self).wf(),
        ensures
            final(self).wf(),
            final(self)@ == old(self)@.drained(now),
            final(self)@.inbox.len() == 0,
    {
        let mut pending = self.reactor_rx.try_iter();
        proof {
            lemma_drained_wf(old(self)@, now);
        }
        while self.reactor_rx.len() > 0
            invariant
                self.wakers_running.wf(),
                self@.drained(now) == old(self)@.drained(now),
            decreases self.reactor_rx@.len(),
        {
            let ghost before = self@;
            match pending.next(&mut self.reactor_rx) {
                Some(request) => {
                    let (delay, waker) = request;
                    proof {
                        assert(requests_of(self.reactor_rx@) =~= before.inbox.drop_first());
                        assert(before.inbox[0] == (delay, waker@));
                    }
                    Self::schedule_waker(
                        &mut self.wakers_running,
                        &mut self.wakers_ram,
                        now,
                        delay,
                        waker,
                    );
                },
                None => {},
            }
        }
        proof {
            assert(requests_of(self.reactor_rx@) =~= Seq::<(WakeDelay, TaskId)>::empty());
        }
    }

    /// Sorts one request made at `now` into the collection it belongs to.
    pub fn schedule_waker(
        wakers_running: &mut WakersByTime,
        wakers_ram: &mut WakersInOrder,
        now: Millis,
        delay: WakeDelay,
        waker: SimpleWaker,
    )
        requires
            old(wakers_running).wf(),
        ensures
            final(wakers_running).wf(),
            match due_instant(delay, now) {
                Some(at) => final(wakers_running)@ == scheduled_at(old(wakers_running)@, at, waker@)
                    && tasks_of(final(wakers_ram)@) == tasks_of(old(wakers_ram)@),
                None => final(wakers_running)@ == old(wakers_running)@ && tasks_of(
                    final(wakers_ram)@,
                ) == tasks_of(old(wakers_ram)@).push(waker@),
            },
    {
        let wake_at: Option<Millis> = match delay {
            WakeDelay::Immediate => Some(now),
            WakeDelay::Retry => Some(now.saturating_add(RETRY_WAIT)),
            WakeDelay::WakeAt(time) => Some(time),
            WakeDelay::AfterNextRamRelease => None,
        };
        match wake_at {
            Some(time) => {
                wakers_running.insert(time, waker);
            },
            None => {
                proof {
                    lemma_tasks_of_push(wakers_ram@, waker);
                }
                wakers_ram.push(waker);
            },
        }
    }

    /// Drains the inbox at `now`, then invokes every waker that waits
    /// for RAM, in arrival order, and forgets it. Returns how many were
    /// invoked.
    pub fn wake_on_ram_release(&mut self, now: Millis, woken_rx: &mut Receiver<TaskId>) -> (woken:
        usize)
        requires
            old(self).wf(),
        ensures
            final(self).wf(),
            final(self)@ == old(self)@.drained(now).without_ram_waiters(),
            final(self)@.inbox.len() == 0,
            final(self)@.ram.len() == 0,
            final(woken_rx)@ == old(woken_rx)@ + old(self)@.drained(now).ram,
            woken == old(self)@.drained(now).ram.len(),
    {
        self.drain_queue(now);
        let mut j: usize = 0;
        proof {
            assert(woken_rx@ =~= old(woken_rx)@ + tasks_of(self.wakers_ram@).take(0));
        }
        while j < self.wakers_ram.len()
            invariant
                j <= self.wakers_ram@.len(),
                woken_rx@ == old(woken_rx)@ + tasks_of(self.wakers_ram@).take(j as int),
            decreases self.wakers_ram@.len() - j,
        {
            self.wakers_ram[j].wake_by_ref(woken_rx);
            proof {
                assert(tasks_of(self.wakers_ram@).take(j + 1) =~= tasks_of(self.wakers_ram@).take(
                    j as int,
                ).push(self.wakers_ram@[j as int]@));
                assert(woken_rx@ =~= old(woken_rx)@ + tasks_of(self.wakers_ram@).take(j + 1));
            }
            j += 1;
        }
        proof {
            assert(tasks_of(self.wakers_ram@).take(j as int) =~= tasks_of(self.wakers_ram@));
        }
        self.wakers_ram.clear();
        proof {
            assert(tasks_of(self.wakers_ram@) =~= Seq::<TaskId>::empty());
        }
        j
    }

    /// Drains the inbox at `now`, then invokes every timed waker whose
    /// time is `now` or earlier, earliest first and in scheduling order
    /// within one instant, and forgets it. Returns how many were
    /// invoked. Afterwards every time in the timeline is later than
    /// `now`.
    pub fn wake_running(&mut self, now: Millis, woken_rx: &mut Receiver<TaskId>) -> (woken: usize)
        requires
            old(self).wf(),
        ensures
            final(self).wf(),
            final(self)@ == old(self)@.drained(now).without_due(now),
            final(self)@.inbox.len() == 0,
            final(woken_rx)@ == old(woken_rx)@ + old(self)@.drained(now).due_tasks(now),
            woken == old(self)@.drained(now).due_tasks(now).len(),
            forall|i: int|
                0 <= i < final(self)@.timeline.len() ==> (#[trigger] final(self)@.timeline[i]).0
                    > now,
    {
        self.drain_queue(now);
        self.wakers_running.wake_due(now, woken_rx)
    }
}

} // verus!
