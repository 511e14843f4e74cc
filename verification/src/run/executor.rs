//! The executor: it owns the tasks, the RAM budget, the queue of woken
//! tasks and the reactor, and drives the polling.

use crate::netscript::BitburnerError;
use crate::netscript::Shims;
use crate::netscript::NS;
use crate::run::process::BitburnerProcess;
use crate::run::process::Poll;
use crate::run::process::lemma_poll_outcome_is_polled;
use crate::run::process::lemma_process_wf;
use crate::run::process::poll_outcome;
use crate::run::process::result_view;
use crate::run::process::HostAnswer;
use crate::run::process::PollView;
use crate::run::process::ProcessState;
use crate::run::reactor::inbox_holds;
use crate::run::reactor::lemma_drained_holds;
use crate::run::reactor::lemma_drained_within;
use crate::run::reactor::lemma_due_holds;
use crate::run::reactor::timeline_holds;
use crate::run::reactor::lemma_drained_wf;
use crate::run::reactor::lemma_due_within;
use crate::run::reactor::tasks_within;
use crate::run::reactor::BitburnerReactor;
use crate::run::reactor::ReactorState;
use crate::run::reactor::WakeDelay;
use crate::run::waker::SimpleWaker;
use crate::run::waker::TaskId;
use crate::simple_channel::channel;
use crate::simple_channel::Receiver;
use crate::simple_channel::Sender;
use crate::text::hundredths;
use crate::text::hundredths_text;
use crate::Millis;
use crate::Ram;
use vstd::prelude::*;

verus! {

/// How a task ends: well, or with a message that says what failed.
pub type TaskResult = Result<(), String>;

/// The shortest sleep between two rounds of the executor. The
/// executor always yields for at least this long, so that the host
/// stays responsive.
pub const EXECUTOR_YIELD_MSEC: Millis = 1;

/// A change of the RAM that is available.
#[derive(Debug, Clone, Copy, PartialEq, Eq, Structural)]
pub enum RamChange {
    /// A task takes this much.
    Use(Ram),
    /// A task gives this much back.
    Release(Ram),
}

impl RamChange {
    /// The change as it is shown in the log, in gigabytes.
    pub open spec fn text(self) -> Seq<char> {
        match self {
            RamChange::Use(amount) => "Use("@ + hundredths_text(amount as nat) + ")"@,
            RamChange::Release(amount) => "Release("@ + hundredths_text(amount as nat) + ")"@,
        }
    }

    /// Computes [`text`](RamChange::text).
    pub fn describe(&self) -> (text: String)
        ensures
            text@ == self.text(),
    {
        let mut text = match self {
            RamChange::Use(_) => "Use(".to_owned(),
            RamChange::Release(_) => "Release(".to_owned(),
        };
        let amount = match self {
            RamChange::Use(amount) => *amount,
            RamChange::Release(amount) => *amount,
        };
        text.append(hundredths(amount).as_str());
        text.append(")");
        text
    }
}

/// The RAM budget: how much is available, out of how much at most.
/// What is available never exceeds the maximum.
#[derive(Debug)]
pub struct RamCell {
    available: Ram,
    max: Ram,
}

impl RamCell {
    #[verifier::type_invariant]
    spec fn within_budget(self) -> bool {
        self.available <= self.max
    }

    /// The RAM that is available.
    pub closed spec fn available(&self) -> Ram {
        self.available
    }

    /// The budget the cell was made with.
    pub closed spec fn max(&self) -> Ram {
        self.max
    }

    /// Whether the cell can take `change`: a use of no more than is
    /// available, or a release that stays within the budget.
    pub open spec fn admits(&self, change: RamChange) -> bool {
        match change {
            RamChange::Use(amount) => amount <= self.available(),
            RamChange::Release(amount) => self.available() + amount <= self.max(),
        }
    }

    /// What is available once `change` is made.
    pub open spec fn after(&self, change: RamChange) -> int {
        match change {
            RamChange::Use(amount) => self.available() - amount,
            RamChange::Release(amount) => self.available() + amount,
        }
    }

    /// A cell with all of `max_ram` available.
    pub fn new(max_ram: Ram) -> (cell: Self)
        ensures
            cell.available() == max_ram,
            cell.max() == max_ram,
    {
        RamCell { available: max_ram, max: max_ram }
    }

    /// Computes [`available`](RamCell::available). The result is never
    /// above [`max`](RamCell::max).
    pub fn get(&self) -> (available: Ram)
        ensures
            available == self.available(),
            available <= self.max(),
    {
        proof {
            use_type_invariant(self);
        }
        self.available
    }

    /// Computes [`max`](RamCell::max).
    pub fn get_max(&self) -> (max: Ram)
        ensures
            max == self.max(),
    {
        self.max
    }

    /// Whether `amount` can be taken.
    pub fn can_afford(&self, amount: Ram) -> (enough: bool)
        ensures
            enough == (self.available() >= amount),
    {
        self.available >= amount
    }

    /// Makes `change`.
    pub fn update(&mut self, change: RamChange)
        requires
            old(self).admits(change),
        ensures
            final(self).available() == old(self).after(change),
            final(self).max() == old(self).max(),
    {
        proof {
            use_type_invariant(&*self);
        }
        match change {
            RamChange::Use(amount) => {
                self.available = self.available - amount;
            },
            RamChange::Release(amount) => {
                self.available = self.available + amount;
            },
        }
    }
}


/// The RAM that a sequence of processes owes together.
pub open spec fn total_owed(tasks: Seq<ProcessState>) -> nat
    decreases tasks.len(),
{
    if tasks.len() == 0 {
        0
    } else {
        total_owed(tasks.drop_last()) + tasks.last().owed()
    }
}

/// How many of the processes have not given their RAM back, which is
/// how many have not ended well.
pub open spec fn unreleased(tasks: Seq<ProcessState>) -> nat
    decreases tasks.len(),
{
    if tasks.len() == 0 {
        0
    } else {
        unreleased(tasks.drop_last()) + if tasks.last().is_released {
            0nat
        } else {
            1nat
        }
    }
}

/// Each process is the same process further on: the hint is the one it
/// had, and neither launch nor release is undone.
pub open spec fn tasks_advance(before: Seq<ProcessState>, after: Seq<ProcessState>) -> bool {
    &&& after.len() == before.len()
    &&& forall|i: int|
        0 <= i < before.len() ==> {
            &&& (#[trigger] after[i]).ram_hint == before[i].ram_hint
            &&& before[i].is_launched() ==> after[i].is_launched()
            &&& before[i].is_released ==> after[i].is_released
        }
}

/// The sleep before the next round: until the earliest wake-up time,
/// and never less than the yield.
pub open spec fn sleep_span(next_wake: Option<Millis>, now: Millis) -> Millis {
    match next_wake {
        Some(at) => if at - now > EXECUTOR_YIELD_MSEC {
            (at - now) as u64
        } else {
            EXECUTOR_YIELD_MSEC
        },
        None => EXECUTOR_YIELD_MSEC,
    }
}

/// The message with which a run ends when every task that is left waits
/// for RAM that no task will release.
pub open spec fn deadlock_message() -> Seq<char> {
    "All tasks waiting on RAM release"@
}

/// What the executor holds.
pub struct ExecutorState {
    /// The registered processes; a task's handle is its place here.
    pub tasks: Seq<ProcessState>,
    /// The reactor.
    pub reactor: ReactorState,
    /// The tasks that were woken and not polled yet, oldest first.
    pub woken: Seq<TaskId>,
    /// The RAM that is available.
    pub available: Ram,
    /// The RAM budget.
    pub max: Ram,
}

impl ExecutorState {
    /// The reactor is well formed; the tasks are well formed and no
    /// more than handles can tell apart; every handle that is queued or that the reactor
    /// holds a waker for is the handle of a registered task;
    /// and the budget is accounted for: what is available and what the
    /// processes owe make up the maximum. So what is available never
    /// exceeds the maximum, and is the maximum once every process has
    /// given its RAM back.
    pub open spec fn wf(self) -> bool {
        &&& self.reactor.wf()
        &&& self.tasks.len() <= usize::MAX
        &&& forall|i: int| 0 <= i < self.tasks.len() ==> (#[trigger] self.tasks[i]).wf()
        &&& self.reactor.within(self.tasks.len() as int)
        &&& tasks_within(self.woken, self.tasks.len() as int)
        &&& self.available + total_owed(self.tasks) == self.max
    }

    /// Whether `task` is queued as woken, or the reactor holds a waker
    /// for it.
    pub open spec fn holds(self, task: TaskId) -> bool {
        self.woken.contains(task) || self.reactor.holds(task)
    }

    /// No task is lost: every task that has not ended well is queued as
    /// woken, or the reactor holds a waker for it.
    pub open spec fn covered(self) -> bool {
        forall|i: int|
            0 <= i < self.tasks.len() && !(#[trigger] self.tasks[i]).is_released ==> self.holds(
                TaskId { index: i as usize },
            )
    }

    /// The state after the wakers that are due at `now`, and then those
    /// that wait for RAM, were invoked.
    pub open spec fn woken_at(self, now: Millis) -> ExecutorState {
        let sorted = self.reactor.drained(now);
        ExecutorState {
            reactor: sorted.without_due(now).without_ram_waiters(),
            woken: self.woken + sorted.due_tasks(now) + sorted.ram,
            ..self
        }
    }
}

impl ExecutorState {
    /// Whether a woken task is passed over and not polled: a task that
    /// has ended well, or a handle that names no task.
    pub open spec fn passed_over(self, task: TaskId) -> bool {
        task.index >= self.tasks.len() || self.tasks[task.index as int].is_released
    }

    /// The state once the tasks at the front of the woken queue that are
    /// passed over have left it: the first task queued is then one to
    /// poll, or none is queued.
    pub open spec fn skipped(self) -> ExecutorState
        decreases self.woken.len(),
    {
        if self.woken.len() > 0 && self.passed_over(self.woken[0]) {
            (ExecutorState { woken: self.woken.drop_first(), ..self }).skipped()
        } else {
            self
        }
    }

    /// What the poll at `now` of the task at the front of the woken
    /// queue makes of the executor, given the host's answer, and how the
    /// round of polls stands after it.
    ///
    /// The task leaves the queue and is polled as
    /// [`ProcessState::polled`] says. Where it parks, its policy goes to
    /// the reactor's inbox with a waker for it. Where it ends well, the
    /// reactor's inbox is drained and the tasks that wait for RAM are
    /// queued behind those woken. Where it fails, the round fails with
    /// its message.
    pub open spec fn front_polled(self, answer: HostAnswer, now: Millis) -> (
        ExecutorState,
        Result<(), Seq<char>>,
    ) {
        let task = self.woken[0];
        let (after, available, poll) = self.tasks[task.index as int].polled(
            self.available,
            answer,
            now,
        );
        let polled = ExecutorState {
            tasks: self.tasks.update(task.index as int, after),
            available,
            woken: self.woken.drop_first(),
            ..self
        };
        match poll {
            PollView::Ready(Ok(_)) => (
                ExecutorState {
                    reactor: polled.reactor.drained(now).without_ram_waiters(),
                    woken: polled.woken + polled.reactor.drained(now).ram,
                    ..polled
                },
                Ok(()),
            ),
            PollView::Ready(Err(msg)) => (polled, Err(msg)),
            PollView::Pending(policy) => (
                ExecutorState {
                    reactor: ReactorState {
                        inbox: polled.reactor.inbox.push((policy, task)),
                        ..polled.reactor
                    },
                    ..polled
                },
                Ok(()),
            ),
        }
    }

    /// What a round of polls at `now` makes of the executor, given the
    /// host's answers, one for each task polled and in the order of the
    /// polls, and how the round stands after them.
    ///
    /// For each answer the tasks that are passed over leave the front
    /// of the woken queue, and the task then at the front is polled
    /// with the answer. A failure ends the round.
    pub open spec fn polled_with(self, answers: Seq<HostAnswer>, now: Millis) -> (
        ExecutorState,
        Result<(), Seq<char>>,
    )
        decreases answers.len(),
    {
        if answers.len() == 0 {
            (self, Ok(()))
        } else {
            let (before, result) = self.polled_with(answers.drop_last(), now);
            if result is Err {
                (before, result)
            } else {
                before.skipped().front_polled(answers.last(), now)
            }
        }
    }

    /// Whether a round of polls at `now` is over with `answers`: it has
    /// failed, or no task is left queued that is to be polled.
    pub open spec fn answers_complete(self, answers: Seq<HostAnswer>, now: Millis) -> bool {
        let (polled, result) = self.polled_with(answers, now);
        result is Err || polled.skipped().woken.len() == 0
    }

    /// Whether `answers` are the host's answers in a round of polls at
    /// `now`: each was given when the round had not failed and a task
    /// was there to poll, and is the host's answer to the question that
    /// the poll of that task asks.
    pub open spec fn answers_given<S: Shims>(
        self,
        ns: &NS<S>,
        answers: Seq<HostAnswer>,
        now: Millis,
    ) -> bool
        decreases answers.len(),
    {
        if answers.len() == 0 {
            true
        } else {
            let (before, result) = self.polled_with(answers.drop_last(), now);
            let at = before.skipped();
            &&& self.answers_given(ns, answers.drop_last(), now)
            &&& result is Ok
            &&& at.woken.len() > 0
            &&& at.tasks[at.woken[0].index as int].fits(at.available, answers.last())
            &&& at.tasks[at.woken[0].index as int].answered(ns, answers.last())
        }
    }
}

/// How a round ended, with the message of a failure as plain text:
/// nothing where the run goes on.
pub open spec fn done_view(done: Option<TaskResult>) -> Option<Result<(), Seq<char>>> {
    match done {
        Some(result) => Some(result_view(result)),
        None => None,
    }
}

impl ExecutorState {
    /// The state once the reactor's inbox was drained at `now`.
    pub open spec fn settled(self, now: Millis) -> ExecutorState {
        ExecutorState { reactor: self.reactor.drained(now), ..self }
    }

    /// How the run goes on from this state at `now`, once the inbox is
    /// drained: it has ended well where the reactor is then empty; it
    /// has failed with [`deadlock_message`] where the reactor holds no
    /// timed waker but some that wait for RAM; and it goes on otherwise.
    pub open spec fn verdict(self, now: Millis) -> Option<Result<(), Seq<char>>> {
        let settled = self.settled(now);
        if settled.reactor.timeline.len() > 0 {
            None
        } else if settled.reactor.ram.len() > 0 {
            Some(Err(deadlock_message()))
        } else {
            Some(Ok(()))
        }
    }

    /// What one round at `now` makes of the executor, given the host's
    /// answers to its polls, and how the round ends.
    ///
    /// The wakers that are due and those that wait for RAM are invoked
    /// ([`woken_at`](ExecutorState::woken_at)); the woken tasks are
    /// polled ([`polled_with`](ExecutorState::polled_with)); where a
    /// poll fails, the round ends there with the task's message;
    /// otherwise the inbox is drained and the round ends as
    /// [`verdict`](ExecutorState::verdict) says.
    pub open spec fn turned_with(self, answers: Seq<HostAnswer>, now: Millis) -> (
        ExecutorState,
        Option<Result<(), Seq<char>>>,
    ) {
        let (polled, result) = self.woken_at(now).polled_with(answers, now);
        match result {
            Err(msg) => (polled, Some(Err(msg))),
            Ok(_) => (polled.skipped().settled(now), polled.skipped().verdict(now)),
        }
    }
}

/// The answers of a round are given one after the other: every
/// beginning of them is given too.
pub proof fn lemma_answers_given_so_far<S: Shims>(
    ns: &NS<S>,
    state: ExecutorState,
    answers: Seq<HostAnswer>,
    now: Millis,
    k: int,
)
    requires
        state.answers_given(ns, answers, now),
        0 <= k <= answers.len(),
    ensures
        state.answers_given(ns, answers.take(k), now),
    decreases answers.len(),
{
    if k == answers.len() {
        assert(answers.take(k) =~= answers);
    } else {
        lemma_answers_given_so_far(ns, state, answers.drop_last(), now, k);
        assert(answers.drop_last().take(k) =~= answers.take(k));
    }
}

/// How many of the flags are set.
pub open spec fn count_set(flags: Seq<bool>) -> nat
    decreases flags.len(),
{
    if flags.len() == 0 {
        0
    } else {
        count_set(flags.drop_last()) + if flags.last() {
            1nat
        } else {
            0nat
        }
    }
}

/// Whether `after` is what giving a task up makes of it, where `killed`
/// says whether its worker was killed: the host was asked as
/// [`ProcessState::kill_asked`] says, and the task counts as released
/// exactly where the worker was killed.
pub open spec fn task_killed<S: Shims>(
    ns: &NS<S>,
    before: ProcessState,
    after: ProcessState,
    killed: bool,
) -> bool {
    &&& exists|running: Result<bool, BitburnerError>, confirmed: bool| #[trigger]
        before.kill_asked(ns, running, confirmed, killed)
    &&& after == if killed {
        before.released()
    } else {
        before
    }
}

/// Whether `after` is what giving every task up makes of the tasks
/// `before`, where `kills` says of each task whether its worker was
/// killed.
pub open spec fn tasks_killed<S: Shims>(
    ns: &NS<S>,
    before: Seq<ProcessState>,
    after: Seq<ProcessState>,
    kills: Seq<bool>,
) -> bool {
    &&& after.len() == before.len()
    &&& kills.len() == before.len()
    &&& forall|i: int|
        0 <= i < before.len() ==> #[trigger] task_killed(ns, before[i], after[i], kills[i])
}

/// Invoking wakers loses no task.
pub proof fn lemma_woken_at_covered(state: ExecutorState, now: Millis)
    requires
        state.wf(),
        state.covered(),
    ensures
        state.woken_at(now).covered(),
{
    let sorted = state.reactor.drained(now);
    let after = state.woken_at(now);
    lemma_drained_wf(state.reactor, now);
    assert forall|i: int| 0 <= i < after.tasks.len() && !(
    #[trigger] after.tasks[i]).is_released implies after.holds(TaskId { index: i as usize }) by {
        let task = TaskId { index: i as usize };
        assert(state.holds(task));
        if state.woken.contains(task) {
            let j = choose|j: int| 0 <= j < state.woken.len() && state.woken[j] == task;
            assert(after.woken[j] == task);
        } else {
            lemma_drained_holds(state.reactor, now, task);
            lemma_due_holds(sorted, now, task);
            if sorted.due_tasks(now).contains(task) {
                let j = choose|j: int|
                    0 <= j < sorted.due_tasks(now).len() && sorted.due_tasks(now)[j] == task;
                assert(after.woken[state.woken.len() + j] == task);
            } else if sorted.ram.contains(task) {
                let j = choose|j: int| 0 <= j < sorted.ram.len() && sorted.ram[j] == task;
                assert(after.woken[state.woken.len() + sorted.due_tasks(now).len() + j] == task);
            } else {
                assert(timeline_holds(after.reactor.timeline, task));
            }
        }
    }
}

/// Draining the reactor's inbox loses no task.
pub proof fn lemma_settled_covered(state: ExecutorState, now: Millis)
    requires
        state.wf(),
    ensures
        state.covered() ==> (ExecutorState {
            reactor: state.reactor.drained(now),
            ..state
        }).covered(),
{
    let after = ExecutorState { reactor: state.reactor.drained(now), ..state };
    if state.covered() {
        assert forall|i: int| 0 <= i < after.tasks.len() && !(
        #[trigger] after.tasks[i]).is_released implies after.holds(
            TaskId { index: i as usize },
        ) by {
            let held = TaskId { index: i as usize };
            assert(state.holds(held));
            if state.reactor.holds(held) {
                lemma_drained_holds(state.reactor, now, held);
            }
        }
    }
}

/// Where no task is lost, nothing is queued and the reactor is empty,
/// every task has ended well and the whole budget is available again.
pub proof fn lemma_nothing_left_means_done(state: ExecutorState)
    requires
        state.wf(),
        state.covered(),
        state.woken.len() == 0,
        state.reactor.is_empty(),
    ensures
        forall|i: int| 0 <= i < state.tasks.len() ==> (#[trigger] state.tasks[i]).is_released,
        state.available == state.max,
{
    assert forall|i: int| 0 <= i < state.tasks.len() implies (
    #[trigger] state.tasks[i]).is_released by {
        if !state.tasks[i].is_released {
            assert(state.holds(TaskId { index: i as usize }));
        }
    }
    lemma_all_released_owes_nothing(state.tasks);
}

/// Replacing one process changes what is owed by the difference.
pub proof fn lemma_total_owed_update(tasks: Seq<ProcessState>, i: int, task: ProcessState)
    requires
        0 <= i < tasks.len(),
    ensures
        total_owed(tasks.update(i, task)) == total_owed(tasks) - tasks[i].owed() + task.owed(),
        tasks[i].owed() <= total_owed(tasks),
    decreases tasks.len(),
{
    let updated = tasks.update(i, task);
    if i == tasks.len() - 1 {
        assert(updated.drop_last() =~= tasks.drop_last());
    } else {
        assert(updated.drop_last() =~= tasks.drop_last().update(i, task));
        lemma_total_owed_update(tasks.drop_last(), i, task);
    }
}

/// Replacing one process changes how many are unreleased by one, or not
/// at all.
pub proof fn lemma_unreleased_update(tasks: Seq<ProcessState>, i: int, task: ProcessState)
    requires
        0 <= i < tasks.len(),
    ensures
        task.is_released == tasks[i].is_released ==> unreleased(tasks.update(i, task))
            == unreleased(tasks),
        task.is_released && !tasks[i].is_released ==> unreleased(tasks.update(i, task))
            == unreleased(tasks) - 1,
    decreases tasks.len(),
{
    let updated = tasks.update(i, task);
    if i == tasks.len() - 1 {
        assert(updated.drop_last() =~= tasks.drop_last());
    } else {
        assert(updated.drop_last() =~= tasks.drop_last().update(i, task));
        lemma_unreleased_update(tasks.drop_last(), i, task);
    }
}

/// Once every process has given its RAM back, nothing is owed.
pub proof fn lemma_all_released_owes_nothing(tasks: Seq<ProcessState>)
    requires
        forall|i: int| 0 <= i < tasks.len() ==> (#[trigger] tasks[i]).is_released,
    ensures
        total_owed(tasks) == 0,
    decreases tasks.len(),
{
    if tasks.len() > 0 {
        let rest = tasks.drop_last();
        assert forall|i: int| 0 <= i < rest.len() implies (#[trigger] rest[i]).is_released by {
            assert(rest[i] == tasks[i]);
        }
        lemma_all_released_owes_nothing(rest);
        assert(tasks.last() == tasks[tasks.len() - 1]);
    }
}

/// Once every task has given its RAM back, the whole budget is
/// available again.
pub proof fn lemma_budget_is_restored(state: ExecutorState)
    requires
        state.wf(),
        forall|i: int| 0 <= i < state.tasks.len() ==> (#[trigger] state.tasks[i]).is_released,
    ensures
        state.available == state.max,
{
    lemma_all_released_owes_nothing(state.tasks);
}

/// What is available never exceeds the budget.
pub proof fn lemma_available_within_budget(state: ExecutorState)
    requires
        state.wf(),
    ensures
        0 <= state.available <= state.max,
{
}

/// Executes tasks as RAM becomes available.
#[derive(Debug)]
pub struct BitburnerExecutor {
    woken_tx: Sender<TaskId>,
    woken_rx: Receiver<TaskId>,
    reactor: BitburnerReactor,
    ram_cell: RamCell,
    tasks: Vec<BitburnerProcess>,
}

impl View for BitburnerExecutor {
    type V = ExecutorState;

    closed spec fn view(&self) -> ExecutorState {
        ExecutorState {
            tasks: Seq::new(self.tasks@.len(), |i: int| self.tasks@[i]@),
            reactor: self.reactor@,
            woken: self.woken_rx@,
            available: self.ram_cell.available(),
            max: self.ram_cell.max(),
        }
    }
}

impl BitburnerExecutor {
    /// The invariant of the executor: see [`ExecutorState::wf`].
    pub open spec fn wf(&self) -> bool {
        self@.wf()
    }

    /// An executor with a budget of `max_ram` and no task.
    pub fn new(max_ram: Ram) -> (executor: Self)
        ensures
            executor.wf(),
            executor@.tasks.len() == 0,
            executor@.woken.len() == 0,
            executor@.reactor.is_empty(),
            executor@.available == max_ram,
            executor@.max == max_ram,
            executor@.covered(),
    {
        let (woken_tx, woken_rx) = channel::<TaskId>();
        let ram_cell = RamCell::new(max_ram);
        let reactor = BitburnerReactor::new();
        BitburnerExecutor { woken_tx, woken_rx, ram_cell, reactor, tasks: Vec::new() }
    }

    /// Takes a process that was not launched in as a task, and asks the
    /// reactor for an immediate first poll of it. Returns the task's
    /// handle.
    pub fn register(&mut self, process: BitburnerProcess) -> (task: TaskId)
        requires
            old(self).wf(),
            !process@.is_launched(),
        ensures
            final(self).wf(),
            task.index == old(self)@.tasks.len(),
            final(self)@ == (ExecutorState {
                tasks: old(self)@.tasks.push(process@),
                reactor: ReactorState {
                    inbox: old(self)@.reactor.inbox.push((WakeDelay::Immediate, task)),
                    ..old(self)@.reactor
                },
                ..old(self)@
            }),
            old(self)@.covered() ==> final(self)@.covered(),
    {
        let task = TaskId { index: self.tasks.len() };
        let waker = SimpleWaker::waker(task, self.woken_tx.clone());
        let ghost state = process@;
        proof {
            lemma_process_wf(process);
        }
        self.tasks.push(process);
        self.reactor.schedule(WakeDelay::Immediate, waker);
        let count = self.tasks.len();
        proof {
            assert(count == old(self)@.tasks.len() + 1);
            assert(self@.tasks =~= old(self)@.tasks.push(state));
            assert(self@.tasks.drop_last() =~= old(self)@.tasks);
            if old(self)@.covered() {
                assert forall|i: int| 0 <= i < self@.tasks.len() && !(
                #[trigger] self@.tasks[i]).is_released implies self@.holds(
                    TaskId { index: i as usize },
                ) by {
                    let held = TaskId { index: i as usize };
                    if i < old(self)@.tasks.len() {
                        assert(self@.tasks[i] == old(self)@.tasks[i]);
                        assert(old(self)@.holds(held));
                        if inbox_holds(old(self)@.reactor.inbox, held) {
                            let j = choose|j: int|
                                0 <= j < old(self)@.reactor.inbox.len() && (
                                #[trigger] old(self)@.reactor.inbox[j]).1 == held;
                            assert(self@.reactor.inbox[j].1 == held);
                        }
                    } else {
                        assert(self@.reactor.inbox[old(self)@.reactor.inbox.len() as int].1
                            == held);
                    }
                }
            }
        }
        task
    }

    /// The RAM budget.
    pub fn get_ram_cell(&self) -> (cell: &RamCell)
        ensures
            cell.available() == self@.available,
            cell.max() == self@.max,
    {
        &self.ram_cell
    }

    /// The number of tasks that were registered.
    pub fn task_count(&self) -> (n: usize)
        ensures
            n == self@.tasks.len(),
    {
        self.tasks.len()
    }

    /// The process behind a handle, if the handle is of this executor.
    pub fn task(&self, task: TaskId) -> (found: Option<&BitburnerProcess>)
        ensures
            found is Some <==> task.index < self@.tasks.len(),
            found is Some ==> found->0@ == self@.tasks[task.index as int],
    {
        if task.index < self.tasks.len() {
            Some(&self.tasks[task.index])
        } else {
            None
        }
    }

    /// How long to sleep at `now` before the next round: see
    /// [`sleep_span`]. The reactor's inbox is drained first, so every
    /// request made counts.
    pub fn sleep_for(&mut self, now: Millis) -> (span: Millis)
        requires
            old(self).wf(),
        ensures
            final(self).wf(),
            final(self)@ == (ExecutorState {
                reactor: old(self)@.reactor.drained(now),
                ..old(self)@
            }),
            old(self)@.covered() ==> final(self)@.covered(),
            span >= EXECUTOR_YIELD_MSEC,
            final(self)@.reactor.timeline.len() == 0 ==> span == sleep_span(None, now),
            final(self)@.reactor.timeline.len() > 0 ==> span == sleep_span(
                Some(final(self)@.reactor.timeline[0].0),
                now,
            ),
    {
        proof {
            lemma_drained_within(self@.reactor, now, self@.tasks.len() as int);
            lemma_settled_covered(self@, now);
        }
        let sleep_for: Millis = match self.reactor.next_wake(now) {
            Some(at) => at.saturating_sub(now),
            None => 0,
        };
        if sleep_for > EXECUTOR_YIELD_MSEC {
            sleep_for
        } else {
            EXECUTOR_YIELD_MSEC
        }
    }

    /// Polls the woken tasks at `now`, oldest first, until none is left
    /// or one fails.
    ///
    /// Each task is polled with a fresh waker for it. A task that parks
    /// has its policy and the waker handed to the reactor. When a task
    /// ends well, the wakers that wait for RAM are invoked at once, so
    /// their tasks are polled in this same call. When a task fails, its
    /// message is returned and the rest stay queued. A task that has
    /// ended well is not polled again.
    ///
    /// So the host is asked once at most for each task polled, and the
    /// round comes to what [`ExecutorState::polled_with`] makes of its
    /// answers: where it goes through, no task is left queued that is
    /// to be polled; where a task fails, the round ends with that poll
    /// and the task's message. With no task queued that is to be
    /// polled, the round goes through and the host is not asked.
    pub fn poll<S: Shims>(&mut self, ns: &NS<S>, now: Millis) -> (polled: TaskResult)
        requires
            old(self).wf(),
        ensures
            final(self).wf(),
            final(self)@.max == old(self)@.max,
            tasks_advance(old(self)@.tasks, final(self)@.tasks),
            polled is Ok ==> final(self)@.woken.len() == 0,
            old(self)@.covered() && polled is Ok ==> final(self)@.covered(),
            exists|answers: Seq<HostAnswer>| #[trigger]
                old(self)@.answers_given(ns, answers, now) && old(self)@.answers_complete(
                    answers,
                    now,
                ) && old(self)@.polled_with(answers, now).1 == result_view(polled) && final(self)@ == if polled is Ok {
                    old(self)@.polled_with(answers, now).0.skipped()
                } else {
                    old(self)@.polled_with(answers, now).0
                },
            old(self)@.skipped().woken.len() == 0 ==> polled is Ok && final(self)@ == old(self)@.skipped(),
    {
        let ghost mut given: Seq<HostAnswer> = Seq::empty();
        loop
            invariant
                self.wf(),
                self@.max == old(self)@.max,
                tasks_advance(old(self)@.tasks, self@.tasks),
                old(self)@.covered() ==> self@.covered(),
                old(self)@.answers_given(ns, given, now),
                old(self)@.polled_with(given, now).1 is Ok,
                old(self)@.polled_with(given, now).0.skipped() == self@.skipped(),
                given.len() == 0 ==> old(self)@.skipped() == self@.skipped(),
                given.len() > 0 ==> old(self)@.skipped().woken.len() > 0,
            decreases unreleased(self@.tasks), self@.woken.len(),
        {
            let ghost before = self@;
            let task = match self.woken_rx.try_recv() {
                Ok(task) => task,
                Err(_) => {
                    return Ok(());
                },
            };
            let i = task.index;
            proof {
                assert(before.woken[0].index < before.tasks.len());
                assert forall|j: int| 0 <= j < self@.woken.len() implies (
                #[trigger] self@.woken[j]).index < self@.tasks.len() by {
                    assert(self@.woken[j] == before.woken[j + 1]);
                }
            }
            let ghost popped = self@;
            proof {
                if before.covered() {
                    assert forall|k: int|
                        0 <= k < popped.tasks.len() && k != i && !(
                        #[trigger] popped.tasks[k]).is_released implies popped.holds(
                        TaskId { index: k as usize },
                    ) by {
                        let held = TaskId { index: k as usize };
                        assert(before.holds(held));
                        if before.woken.contains(held) {
                            let j = choose|j: int|
                                0 <= j < before.woken.len() && before.woken[j] == held;
                            assert(before.woken[0].index == i);
                            assert(j > 0);
                            assert(popped.woken[j - 1] == held);
                        }
                    }
                }
            }
            proof {
                assert(popped == ExecutorState { woken: before.woken.drop_first(), ..before });
                if before.passed_over(task) {
                    assert(before.skipped() == popped.skipped());
                } else {
                    assert(before.skipped() == before);
                }
            }
            if !self.tasks[i].is_released() {
                let waker = SimpleWaker::waker(task, self.woken_tx.clone());
                proof {
                    lemma_total_owed_update(before.tasks, i as int, before.tasks[i as int]);
                }
                let process = &mut self.tasks[i];
                let poll = process.poll(ns, now, &mut self.ram_cell);
                let ghost answer = choose|answer: HostAnswer| #[trigger]
                    before.tasks[i as int].answered(ns, answer) && poll_outcome(
                        before.tasks[i as int],
                        self.tasks@[i as int]@,
                        before.available,
                        self@.available,
                        answer,
                        now,
                        poll,
                    );
                let ghost answers = given.push(answer);
                let ghost polled_task = ExecutorState {
                    tasks: before.tasks.update(i as int, self.tasks@[i as int]@),
                    available: self@.available,
                    woken: before.woken.drop_first(),
                    ..before
                };
                proof {
                    assert(self@.tasks =~= before.tasks.update(i as int, self.tasks@[i as int]@));
                    lemma_total_owed_update(before.tasks, i as int, self.tasks@[i as int]@);
                    lemma_unreleased_update(before.tasks, i as int, self.tasks@[i as int]@);
                    lemma_poll_outcome_is_polled(
                        before.tasks[i as int],
                        self.tasks@[i as int]@,
                        before.available,
                        self@.available,
                        answer,
                        now,
                        poll,
                    );
                    assert(answers.drop_last() =~= given);
                    assert(answers.last() == answer);
                    assert(self@ == polled_task);
                    assert(old(self)@.polled_with(answers, now) == before.front_polled(
                        answer,
                        now,
                    ));
                    assert(old(self)@.answers_given(ns, answers, now));
                    if given.len() == 0 {
                        assert(old(self)@.skipped() == before);
                    }
                }
                match poll {
                    Poll::Ready(Err(e)) => {
                        proof {
                            assert(before.front_polled(answer, now) == (polled_task, Err::<
                                (),
                                Seq<char>,
                            >(e@)));
                        }
                        return Err(e);
                    },
                    Poll::Ready(Ok(_)) => {
                        let ghost ended = self@;
                        proof {
                            lemma_drained_wf(self@.reactor, now);
                            lemma_drained_within(self@.reactor, now, self@.tasks.len() as int);
                        }
                        self.reactor.wake_on_ram_release(now, &mut self.woken_rx);
                        proof {
                            assert(before.front_polled(answer, now).0 == self@);
                            given = answers;
                            if before.covered() {
                                assert forall|k: int|
                                    0 <= k < self@.tasks.len() && !(
                                    #[trigger] self@.tasks[k]).is_released implies self@.holds(
                                    TaskId { index: k as usize },
                                ) by {
                                    let held = TaskId { index: k as usize };
                                    assert(popped.tasks[k] == self@.tasks[k]);
                                    assert(popped.holds(held));
                                    if popped.woken.contains(held) {
                                        let j = choose|j: int|
                                            0 <= j < popped.woken.len() && popped.woken[j]
                                                == held;
                                        assert(self@.woken[j] == held);
                                    } else {
                                        lemma_drained_holds(ended.reactor, now, held);
                                        let sorted = ended.reactor.drained(now);
                                        if sorted.ram.contains(held) {
                                            let j = choose|j: int|
                                                0 <= j < sorted.ram.len() && sorted.ram[j] == held;
                                            assert(self@.woken[popped.woken.len() + j] == held);
                                        }
                                    }
                                }
                            }
                        }
                    },
                    Poll::Pending(policy) => {
                        self.reactor.schedule(policy, waker);
                        proof {
                            assert(before.front_polled(answer, now).0 == self@);
                            given = answers;
                            if before.covered() {
                                assert forall|k: int|
                                    0 <= k < self@.tasks.len() && !(
                                    #[trigger] self@.tasks[k]).is_released implies self@.holds(
                                    TaskId { index: k as usize },
                                ) by {
                                    let held = TaskId { index: k as usize };
                                    if k == i {
                                        assert(self@.reactor.inbox[popped.reactor.inbox.len() as int].1
                                            == held);
                                    } else {
                                        assert(popped.tasks[k] == self@.tasks[k]);
                                        assert(popped.holds(held));
                                        if inbox_holds(popped.reactor.inbox, held) {
                                            let j = choose|j: int|
                                                0 <= j < popped.reactor.inbox.len() && (
                                                #[trigger] popped.reactor.inbox[j]).1 == held;
                                            assert(self@.reactor.inbox[j].1 == held);
                                        }
                                    }
                                }
                            }
                        }
                    },
                }
            }
        }
    }

    /// Invokes the wakers whose time has come at `now`, and then those
    /// that wait for RAM. Returns how many were invoked.
    ///
    /// The tasks are queued behind those already woken: first the tasks
    /// that are due, earliest first and in scheduling order within an
    /// instant, then the tasks that waited for RAM, in the order they
    /// came to wait.
    pub fn wake(&mut self, now: Millis) -> (woken: usize)
        requires
            old(self).wf(),
        ensures
            final(self).wf(),
            final(self)@ == old(self)@.woken_at(now),
            woken == old(self)@.reactor.drained(now).due_tasks(now).len() + old(self)@.reactor.drained(now).ram.len(),
            old(self)@.covered() ==> final(self)@.covered(),
    {
        proof {
            if old(self)@.covered() {
                lemma_woken_at_covered(old(self)@, now);
            }
        }
        proof {
            let count = self@.tasks.len() as int;
            lemma_drained_wf(self@.reactor, now);
            lemma_drained_within(self@.reactor, now, count);
            lemma_due_within(self@.reactor.drained(now), now, count);
        }
        let due = self.reactor.wake_running(now, &mut self.woken_rx);
        proof {
            assert(self@.reactor.inbox.len() == 0);
            assert(self@.reactor.drained(now) == self@.reactor);
        }
        let waiting = self.reactor.wake_on_ram_release(now, &mut self.woken_rx);
        // Both counts are of handles that the queue now holds
        let queued = self.woken_rx.len();
        assert(due + waiting <= queued);
        due + waiting
    }

    /// Decides at `now`, after a round of polls, how the run goes on.
    ///
    /// The reactor's inbox is drained first. If the reactor is then
    /// empty, the run has ended well. If it holds no timed waker but
    /// some that wait for RAM, no task is left that could release any:
    /// the run has failed. Otherwise the run goes on.
    pub fn verdict(&mut self, now: Millis) -> (done: Option<TaskResult>)
        requires
            old(self).wf(),
        ensures
            final(self).wf(),
            final(self)@ == old(self)@.settled(now),
            done_view(done) == old(self)@.verdict(now),
            match done {
                Some(Ok(_)) => final(self)@.reactor.is_empty(),
                Some(Err(msg)) => {
                    &&& final(self)@.reactor.timeline.len() == 0
                    &&& final(self)@.reactor.ram.len() > 0
                    &&& msg@ == deadlock_message()
                },
                None => final(self)@.reactor.timeline.len() > 0,
            },
            old(self)@.covered() ==> final(self)@.covered(),
    {
        proof {
            lemma_drained_within(self@.reactor, now, self@.tasks.len() as int);
            lemma_settled_covered(self@, now);
        }
        if self.reactor.is_empty(now) {
            return Some(Ok(()));
        }
        if self.reactor.has_no_running() {
            return Some(Err("All tasks waiting on RAM release".to_owned()));
        }
        None
    }

    /// One round of the run, made at `now`, after the sleep: invokes
    /// the wakers that are due, then those that wait for RAM, polls the
    /// woken tasks, and decides how the run goes on.
    ///
    /// Returns `None` where the run goes on; the caller then sleeps for
    /// [`sleep_for`](BitburnerExecutor::sleep_for) and makes the next
    /// round. Returns the result of the run where it has ended: a
    /// task's failure, the deadlock on RAM, or success when nothing is
    /// parked any more.
    ///
    /// So the round and its end are what
    /// [`ExecutorState::turned_with`] makes of the host's answers to
    /// the polls. With no task to poll the host is not asked, and the
    /// end is the reactor's alone.
    pub fn turn<S: Shims>(&mut self, ns: &NS<S>, now: Millis) -> (done: Option<TaskResult>)
        requires
            old(self).wf(),
        ensures
            final(self).wf(),
            final(self)@.max == old(self)@.max,
            tasks_advance(old(self)@.tasks, final(self)@.tasks),
            exists|answers: Seq<HostAnswer>| #[trigger]
                old(self)@.woken_at(now).answers_given(ns, answers, now) && old(self)@.woken_at(now).answers_complete(answers, now) && (final(self)@, done_view(done))
                    == old(self)@.turned_with(answers, now),
            old(self)@.woken_at(now).skipped().woken.len() == 0 ==> (final(self)@, done_view(done))
                == old(self)@.turned_with(Seq::empty(), now),
            done matches Some(Ok(_)) ==> final(self)@.reactor.is_empty() && final(self)@.woken.len()
                == 0,
            done is None ==> final(self)@.reactor.timeline.len() > 0 && final(self)@.woken.len()
                == 0,
            old(self)@.covered() && !(done matches Some(Err(_))) ==> final(self)@.covered(),
            old(self)@.covered() && (done matches Some(Ok(_))) ==> {
                &&& final(self)@.available == final(self)@.max
                &&& forall|i: int|
                    0 <= i < final(self)@.tasks.len() ==> (
                    #[trigger] final(self)@.tasks[i]).is_released
            },
    {
        self.wake(now);
        let ghost woken = self@;
        let polled = self.poll(ns, now);
        let ghost after = self@;
        let ghost answers = choose|answers: Seq<HostAnswer>| #[trigger]
            woken.answers_given(ns, answers, now) && woken.answers_complete(answers, now)
                && woken.polled_with(answers, now).1 == result_view(polled) && after
                == if polled is Ok {
                woken.polled_with(answers, now).0.skipped()
            } else {
                woken.polled_with(answers, now).0
            };
        proof {
            if woken.skipped().woken.len() == 0 {
                assert(woken.polled_with(Seq::empty(), now) == (woken, Ok::<(), Seq<char>>(())));
            }
        }
        match polled {
            Err(e) => {
                proof {
                    assert((after, done_view(Some(Err::<(), String>(e)))) == old(self)@.turned_with(answers, now));
                }
                return Some(Err(e));
            },
            Ok(_) => {},
        }
        let done = self.verdict(now);
        proof {
            assert((self@, done_view(done)) == old(self)@.turned_with(answers, now));
            if old(self)@.covered() && (done matches Some(Ok(_))) {
                lemma_nothing_left_means_done(self@);
            }
        }
        done
    }

    /// Gives every task up: the worker of each is killed if the host
    /// still reports it as running, and its RAM is given back where the
    /// host confirms the kill. Returns how many workers were killed.
    /// That a task is given up is noted in the log.
    ///
    /// So each task is dealt with as [`task_killed`] says, the RAM that
    /// the tasks no longer owe is available again, and the number
    /// returned is that of the workers killed. Where no task is
    /// launched, the host is not asked and nothing changes.
    pub fn kill_all<S: Shims>(&mut self, ns: &NS<S>) -> (killed: usize)
        requires
            old(self).wf(),
        ensures
            final(self).wf(),
            final(self)@.max == old(self)@.max,
            final(self)@.reactor == old(self)@.reactor,
            final(self)@.woken == old(self)@.woken,
            tasks_advance(old(self)@.tasks, final(self)@.tasks),
            killed <= final(self)@.tasks.len(),
            old(self)@.covered() ==> final(self)@.covered(),
            final(self)@.available == old(self)@.available + total_owed(old(self)@.tasks)
                - total_owed(final(self)@.tasks),
            exists|kills: Seq<bool>| #[trigger]
                tasks_killed(ns, old(self)@.tasks, final(self)@.tasks, kills) && killed
                    == count_set(kills),
    {
        let mut killed: usize = 0;
        let mut i: usize = 0;
        let ghost mut kills: Seq<bool> = Seq::empty();
        while i < self.tasks.len()
            invariant
                self.wf(),
                self@.max == old(self)@.max,
                self@.reactor == old(self)@.reactor,
                self@.woken == old(self)@.woken,
                tasks_advance(old(self)@.tasks, self@.tasks),
                i <= self@.tasks.len(),
                killed <= i,
                kills.len() == i,
                killed == count_set(kills),
                forall|j: int|
                    0 <= j < i ==> #[trigger] task_killed(
                        ns,
                        old(self)@.tasks[j],
                        self@.tasks[j],
                        kills[j],
                    ),
                forall|j: int|
                    i <= j < self@.tasks.len() ==> #[trigger] self@.tasks[j] == old(self)@.tasks[j],
            decreases self@.tasks.len() - i,
        {
            let ghost before = self@;
            let ghost flags = kills;
            proof {
                lemma_total_owed_update(before.tasks, i as int, before.tasks[i as int]);
            }
            let process = &mut self.tasks[i];
            process.log(ns, "dropping");
            let confirmed = process.kill(ns, &mut self.ram_cell);
            proof {
                assert(self@.tasks =~= before.tasks.update(i as int, self.tasks@[i as int]@));
                lemma_total_owed_update(before.tasks, i as int, self.tasks@[i as int]@);
                assert(before.tasks[i as int] == old(self)@.tasks[i as int]);
                assert(task_killed(
                    ns,
                    old(self)@.tasks[i as int],
                    self@.tasks[i as int],
                    confirmed,
                ));
                kills = flags.push(confirmed);
                assert(kills.drop_last() =~= flags);
                assert forall|j: int| 0 <= j < i + 1 implies #[trigger] task_killed(
                    ns,
                    old(self)@.tasks[j],
                    self@.tasks[j],
                    kills[j],
                ) by {
                    if j < i {
                        assert(task_killed(ns, old(self)@.tasks[j], before.tasks[j], flags[j]));
                        assert(self@.tasks[j] == before.tasks[j]);
                    }
                }
            }
            if confirmed {
                killed += 1;
            }
            i += 1;
        }
        proof {
            assert(tasks_killed(ns, old(self)@.tasks, self@.tasks, kills));
        }
        killed
    }
}

} // verus!
