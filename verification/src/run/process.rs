//! One worker script as a state machine: waiting for RAM, launched and
//! running, finished.

use crate::netscript::Arg;
use crate::netscript::BitburnerError;
use crate::netscript::FilenameOrPID;
use crate::netscript::Shims;
use crate::netscript::ThreadOrOptions;
use crate::netscript::NS;
use crate::run::executor::RamCell;
use crate::run::executor::RamChange;
use crate::run::executor::TaskResult;
use crate::run::reactor::WakeDelay;
use crate::text::seconds;
use crate::Millis;
use crate::Ram;
use vstd::prelude::*;

verus! {

/// What a poll of a task came to.
#[derive(Debug, PartialEq)]
pub enum Poll {
    /// The task has ended.
    Ready(TaskResult),
    /// The task parks, and asks to be polled again as the policy says.
    Pending(WakeDelay),
}

/// `start + span`, or the end of the clock's range where that lies
/// beyond it.
pub open spec fn instant_after(start: Millis, span: Millis) -> Millis {
    if start + span <= u64::MAX {
        (start + span) as u64
    } else {
        u64::MAX
    }
}

/// What a process is made of, as plain values: what to launch, and how
/// far it has got.
pub struct ProcessState {
    /// The name of the script to launch.
    pub script: Seq<char>,
    /// The thread count or options the script is launched with.
    pub thread_or_options: Option<ThreadOrOptions>,
    /// The arguments the script is launched with.
    pub args: Seq<Arg>,
    /// The RAM the worker takes while it runs.
    pub ram_hint: Ram,
    /// How long the worker is expected to run.
    pub duration_hint: Millis,
    /// The worker's process id, once it is launched.
    pub pid: Option<u32>,
    /// Whether the worker's RAM was given back.
    pub is_released: bool,
    /// When the worker was launched.
    pub start_instant: Option<Millis>,
    /// When the process was last polled.
    pub last_polled: Option<Millis>,
}

impl ProcessState {
    /// Whether the worker was launched.
    pub open spec fn is_launched(self) -> bool {
        self.pid is Some
    }

    /// What holds of every process: it has a start instant exactly when
    /// it is launched, and only a launched process has given RAM back.
    pub open spec fn wf(self) -> bool {
        &&& self.start_instant is Some <==> self.pid is Some
        &&& self.is_released ==> self.pid is Some
    }

    /// The RAM that the process has taken from the budget and not given
    /// back: its hint from launch to release, nothing before and after.
    pub open spec fn owed(self) -> nat {
        if self.pid is Some && !self.is_released {
            self.ram_hint as nat
        } else {
            0
        }
    }

    /// The state after a poll at `now` began.
    pub open spec fn polled_at(self, now: Millis) -> ProcessState {
        ProcessState { last_polled: Some(now), ..self }
    }

    /// The state after the worker was launched at `now` as `pid`.
    pub open spec fn launched_at(self, pid: u32, now: Millis) -> ProcessState {
        ProcessState { pid: Some(pid), start_instant: Some(now), ..self }
    }

    /// The state after the RAM was given back.
    pub open spec fn released(self) -> ProcessState {
        ProcessState { is_released: true, ..self }
    }

    /// The policy by which a process in this state parks at `now`.
    ///
    /// Before launch it waits for RAM. After launch it waits for the
    /// expected end of the worker; if the last poll already came after
    /// that end, it retries after the back-off. A launched process that
    /// was never polled asks for an immediate poll once the expected
    /// end has passed.
    pub open spec fn wake_policy(self, now: Millis) -> WakeDelay {
        match self.start_instant {
            None => WakeDelay::AfterNextRamRelease,
            Some(start) => {
                let expected_finish = instant_after(start, self.duration_hint);
                match self.last_polled {
                    Some(polled) => if polled > expected_finish {
                        WakeDelay::Retry
                    } else {
                        WakeDelay::WakeAt(expected_finish)
                    },
                    None => if now >= expected_finish {
                        WakeDelay::Immediate
                    } else {
                        WakeDelay::WakeAt(expected_finish)
                    },
                }
            },
        }
    }
}

/// Between two states of one process, with the RAM available before and
/// after: the hint is fixed, launch and release are not undone, and what
/// is available changes by exactly what the process newly owes or no
/// longer owes.
pub open spec fn ledger_step(
    before: ProcessState,
    after: ProcessState,
    available_before: int,
    available_after: int,
) -> bool {
    &&& after.ram_hint == before.ram_hint
    &&& before.is_launched() ==> after.is_launched()
    &&& before.is_released ==> after.is_released
    &&& available_after + after.owed() == available_before + before.owed()
}

/// The message of a launch of `script` that the host refused: that the
/// launch failed, and the name of the script.
pub open spec fn launch_failed(script: Seq<char>) -> Seq<char> {
    "Failed to launch "@ + script
}

/// An answer of the host to the one question that a poll puts to it.
pub enum HostAnswer {
    /// The process waits for RAM, and the host was not asked.
    NotAsked,
    /// The answer to whether the worker still runs.
    Running(Result<bool, BitburnerError>),
    /// The answer to the launch of the worker.
    Launched(Result<u32, BitburnerError>),
}

/// What the answer to a launch at `now` makes of a process that is not
/// launched and of the RAM available.
///
/// A process id other than 0 means the worker runs: its RAM is taken
/// from the budget and the launch is recorded. The id 0 means the host
/// did not launch it, and an error that the host rejected the call;
/// either way nothing changes and the message says why.
pub open spec fn launch_outcome(
    before: ProcessState,
    after: ProcessState,
    available_before: Ram,
    available_after: Ram,
    answer: Result<u32, BitburnerError>,
    now: Millis,
    launched: Result<(), String>,
) -> bool {
    match answer {
        Ok(pid) => if pid != 0 {
            &&& launched is Ok
            &&& after == before.launched_at(pid, now)
            &&& available_after == available_before - before.ram_hint
        } else {
            &&& launched matches Err(msg) && msg@ == launch_failed(before.script)
            &&& after == before
            &&& available_after == available_before
        },
        Err(error) => {
            &&& launched matches Err(msg) && msg@ == error@
            &&& after == before
            &&& available_after == available_before
        },
    }
}

/// What the answer to whether the worker still runs makes, in a poll at
/// `now`, of a launched process and of the RAM available.
///
/// A worker that no longer runs ends the task well and its RAM is given
/// back. One that runs parks the task by its wake policy. An error of
/// the host ends the task with the host's message.
pub open spec fn running_outcome(
    before: ProcessState,
    after: ProcessState,
    available_before: Ram,
    available_after: Ram,
    answer: Result<bool, BitburnerError>,
    now: Millis,
    poll: Poll,
) -> bool {
    match answer {
        Ok(running) => if running {
            &&& poll == Poll::Pending(before.wake_policy(now))
            &&& after == before
            &&& available_after == available_before
        } else {
            &&& poll == Poll::Ready(Ok(()))
            &&& after == before.released()
            &&& available_after == available_before + before.owed()
        },
        Err(error) => {
            &&& poll matches Poll::Ready(Err(msg)) && msg@ == error@
            &&& after == before
            &&& available_after == available_before
        },
    }
}

/// What a kill makes of a process and of the RAM available: the RAM is
/// given back, and the process counts as released, exactly where
/// `killed` is set.
pub open spec fn kill_outcome(
    before: ProcessState,
    after: ProcessState,
    available_before: Ram,
    available_after: Ram,
    killed: bool,
) -> bool {
    if killed {
        &&& before.is_launched()
        &&& after == before.released()
        &&& available_after == available_before + before.owed()
    } else {
        &&& after == before
        &&& available_after == available_before
    }
}

/// What the host's answer makes of a process polled at `now` and of the
/// RAM available.
///
/// The poll is noted first. A launched process asks whether its worker
/// still runs, and goes on as [`running_outcome`] says. A process that
/// is not launched parks until RAM is released where the budget has no
/// room for it, and the host is not asked; where there is room, the
/// worker is launched as [`launch_outcome`] says, and the task then
/// parks by its wake policy, or ends with the message of a failed
/// launch.
pub open spec fn poll_outcome(
    before: ProcessState,
    after: ProcessState,
    available_before: Ram,
    available_after: Ram,
    answer: HostAnswer,
    now: Millis,
    poll: Poll,
) -> bool {
    let polled = before.polled_at(now);
    match answer {
        HostAnswer::NotAsked => {
            &&& !before.is_launched()
            &&& before.ram_hint > available_before
            &&& after == polled
            &&& available_after == available_before
            &&& poll == Poll::Pending(polled.wake_policy(now))
        },
        HostAnswer::Running(running) => {
            &&& before.is_launched()
            &&& running_outcome(
                polled,
                after,
                available_before,
                available_after,
                running,
                now,
                poll,
            )
        },
        HostAnswer::Launched(launch) => {
            &&& !before.is_launched()
            &&& before.ram_hint <= available_before
            &&& match poll {
                Poll::Pending(policy) => {
                    &&& launch_outcome(
                        polled,
                        after,
                        available_before,
                        available_after,
                        launch,
                        now,
                        Ok(()),
                    )
                    &&& policy == after.wake_policy(now)
                },
                Poll::Ready(failed) => {
                    &&& failed is Err
                    &&& launch_outcome(
                        polled,
                        after,
                        available_before,
                        available_after,
                        launch,
                        now,
                        failed,
                    )
                },
            }
        },
    }
}

/// What a poll of a task came to, with the message of a failure as
/// plain text.
pub enum PollView {
    /// The task has ended, well or with a message.
    Ready(Result<(), Seq<char>>),
    /// The task parks.
    Pending(WakeDelay),
}

/// How a task ended, with the message of a failure as plain text.
pub open spec fn result_view(result: TaskResult) -> Result<(), Seq<char>> {
    match result {
        Ok(_) => Ok(()),
        Err(msg) => Err(msg@),
    }
}

impl View for Poll {
    type V = PollView;

    open spec fn view(&self) -> PollView {
        match *self {
            Poll::Ready(result) => PollView::Ready(result_view(result)),
            Poll::Pending(policy) => PollView::Pending(policy),
        }
    }
}

impl ProcessState {
    /// Whether `answer` is what the host answered to the launch of this
    /// process's script, with its thread count or options and its
    /// arguments.
    pub open spec fn launch_answered<S: Shims>(
        self,
        ns: &NS<S>,
        answer: Result<u32, BitburnerError>,
    ) -> bool {
        exists|script: &str, args: Vec<Arg>|
            script@ == self.script && args@ == self.args && #[trigger] call_ensures(
                S::run_shim,
                (&ns@, script, &self.thread_or_options, &args),
                answer,
            )
    }

    /// Whether `answer` is what the host answered to whether the worker
    /// of this process runs: the script with the worker's process id, on
    /// the current server, with the arguments of the process.
    pub open spec fn running_answered<S: Shims>(
        self,
        ns: &NS<S>,
        answer: Result<bool, BitburnerError>,
    ) -> bool {
        &&& self.pid is Some
        &&& exists|args: Vec<Arg>|
            args@ == self.args && #[trigger] call_ensures(
                S::is_running_shim,
                (&ns@, &FilenameOrPID::Pid(self.pid->0), None::<&str>, &args),
                answer,
            )
    }

    /// Whether `confirmed` is what the host answered to the kill of this
    /// process's worker.
    pub open spec fn kill_answered<S: Shims>(self, ns: &NS<S>, confirmed: bool) -> bool {
        &&& self.pid is Some
        &&& call_ensures(S::kill_shim, (&ns@, self.pid->0), confirmed)
    }

    /// Whether `answer` is what the host answered in a poll of this
    /// process, to the question that the answer is to.
    pub open spec fn answered<S: Shims>(self, ns: &NS<S>, answer: HostAnswer) -> bool {
        match answer {
            HostAnswer::NotAsked => true,
            HostAnswer::Running(running) => self.running_answered(ns, running),
            HostAnswer::Launched(launch) => self.launch_answered(ns, launch),
        }
    }

    /// What the host answered in an attempt to end the worker of this
    /// process, and what came of it: a process that is not launched has
    /// nothing to kill; the host is asked whether the worker runs and, only
    /// if it says so, to kill it; and the worker is killed where the
    /// host confirms that.
    pub open spec fn kill_asked<S: Shims>(
        self,
        ns: &NS<S>,
        running: Result<bool, BitburnerError>,
        confirmed: bool,
        killed: bool,
    ) -> bool {
        if self.is_launched() {
            &&& self.running_answered(ns, running)
            &&& if running == Ok::<bool, BitburnerError>(true) {
                self.kill_answered(ns, confirmed) && killed == confirmed
            } else {
                !killed
            }
        } else {
            !killed
        }
    }

    /// Whether `answer` is to the question that a poll of a process in
    /// this state asks, with `available` RAM in the budget: a launched
    /// process asks whether its worker runs; one that is not launched
    /// asks for the launch where the budget has room for it, and asks
    /// nothing where it has not.
    pub open spec fn fits(self, available: Ram, answer: HostAnswer) -> bool {
        match answer {
            HostAnswer::NotAsked => !self.is_launched() && self.ram_hint > available,
            HostAnswer::Running(_) => self.is_launched(),
            HostAnswer::Launched(_) => !self.is_launched() && self.ram_hint <= available,
        }
    }

    /// What a poll at `now` makes of a process in this state and of the
    /// `available` RAM, given the host's answer: the state afterwards,
    /// the RAM then available, and what the poll comes to. This is
    /// [`poll_outcome`] as a function of the answer.
    pub open spec fn polled(self, available: Ram, answer: HostAnswer, now: Millis) -> (
        ProcessState,
        Ram,
        PollView,
    ) {
        let polled = self.polled_at(now);
        match answer {
            HostAnswer::NotAsked => (polled, available, PollView::Pending(polled.wake_policy(now))),
            HostAnswer::Running(Ok(running)) => if running {
                (polled, available, PollView::Pending(polled.wake_policy(now)))
            } else {
                (
                    polled.released(),
                    (available + polled.owed()) as Ram,
                    PollView::Ready(Ok(())),
                )
            },
            HostAnswer::Running(Err(error)) => (polled, available, PollView::Ready(Err(error@))),
            HostAnswer::Launched(Ok(pid)) => if pid != 0 {
                (
                    polled.launched_at(pid, now),
                    (available - polled.ram_hint) as Ram,
                    PollView::Pending(polled.launched_at(pid, now).wake_policy(now)),
                )
            } else {
                (polled, available, PollView::Ready(Err(launch_failed(polled.script))))
            },
            HostAnswer::Launched(Err(error)) => (
                polled,
                available,
                PollView::Ready(Err(error@)),
            ),
        }
    }
}

/// The outcome of a poll is a function of the host's answer: where
/// [`poll_outcome`] holds, the answer fits the state and the outcome is
/// what [`ProcessState::polled`] gives.
pub proof fn lemma_poll_outcome_is_polled(
    before: ProcessState,
    after: ProcessState,
    available_before: Ram,
    available_after: Ram,
    answer: HostAnswer,
    now: Millis,
    poll: Poll,
)
    requires
        poll_outcome(before, after, available_before, available_after, answer, now, poll),
    ensures
        before.fits(available_before, answer),
        before.polled(available_before, answer, now) == (after, available_after, poll@),
{
}

/// One worker script: what to launch, its hints, and how far it has got.
#[derive(Debug)]
pub struct BitburnerProcess {
    script: String,
    thread_or_options: Option<ThreadOrOptions>,
    args: Vec<Arg>,
    duration_hint: Millis,
    /// Total RAM requirement hint, not per thread.
    ram_hint: Ram,
    stage: Stage,
    last_polled: Option<Millis>,
}

/// How far a process has got: its worker is not launched; it was
/// launched, under a process id and at an instant; or its RAM was given
/// back after that.
#[derive(Debug, Clone, Copy)]
enum Stage {
    Waiting,
    Running(u32, Millis),
    Released(u32, Millis),
}

impl View for BitburnerProcess {
    type V = ProcessState;

    closed spec fn view(&self) -> ProcessState {
        ProcessState {
            script: self.script@,
            thread_or_options: self.thread_or_options,
            args: self.args@,
            ram_hint: self.ram_hint,
            duration_hint: self.duration_hint,
            pid: match self.stage {
                Stage::Waiting => None,
                Stage::Running(pid, _) => Some(pid),
                Stage::Released(pid, _) => Some(pid),
            },
            is_released: self.stage is Released,
            start_instant: match self.stage {
                Stage::Waiting => None,
                Stage::Running(_, start) => Some(start),
                Stage::Released(_, start) => Some(start),
            },
            last_polled: self.last_polled,
        }
    }
}

impl BitburnerProcess {
    /// See [`ProcessState::launch_answered`].
    pub open spec fn launch_answered<S: Shims>(
        &self,
        ns: &NS<S>,
        answer: Result<u32, BitburnerError>,
    ) -> bool {
        self@.launch_answered(ns, answer)
    }

    /// See [`ProcessState::running_answered`].
    pub open spec fn running_answered<S: Shims>(
        &self,
        ns: &NS<S>,
        answer: Result<bool, BitburnerError>,
    ) -> bool {
        self@.running_answered(ns, answer)
    }

    /// See [`ProcessState::kill_answered`].
    pub open spec fn kill_answered<S: Shims>(&self, ns: &NS<S>, confirmed: bool) -> bool {
        self@.kill_answered(ns, confirmed)
    }

    /// See [`ProcessState::answered`].
    pub open spec fn answered<S: Shims>(&self, ns: &NS<S>, answer: HostAnswer) -> bool {
        self@.answered(ns, answer)
    }

    /// See [`ProcessState::kill_asked`].
    pub open spec fn kill_asked<S: Shims>(
        &self,
        ns: &NS<S>,
        running: Result<bool, BitburnerError>,
        confirmed: bool,
        killed: bool,
    ) -> bool {
        self@.kill_asked(ns, running, confirmed, killed)
    }

    /// A process that was not launched yet.
    pub fn new(
        script: String,
        thread_or_options: Option<ThreadOrOptions>,
        args: Vec<Arg>,
        duration_hint: Millis,
        ram_hint: Ram,
    ) -> (process: Self)
        ensures
            process@ == (ProcessState {
                script: script@,
                thread_or_options,
                args: args@,
                ram_hint,
                duration_hint,
                pid: None,
                is_released: false,
                start_instant: None,
                last_polled: None,
            }),
    {
        BitburnerProcess {
            script,
            thread_or_options,
            args,
            duration_hint,
            ram_hint,
            stage: Stage::Waiting,
            last_polled: None,
        }
    }

    /// Whether the worker was launched.
    pub fn is_launched(&self) -> (launched: bool)
        ensures
            launched == self@.is_launched(),
    {
        match self.stage {
            Stage::Waiting => false,
            _ => true,
        }
    }

    /// Whether the worker's RAM was given back.
    pub fn is_released(&self) -> (released: bool)
        ensures
            released == self@.is_released,
    {
        match self.stage {
            Stage::Released(_, _) => true,
            _ => false,
        }
    }

    /// The RAM the worker takes while it runs.
    pub fn ram_hint(&self) -> (hint: Ram)
        ensures
            hint == self@.ram_hint,
    {
        self.ram_hint
    }

    /// How long the worker is expected to run.
    pub fn duration_hint(&self) -> (hint: Millis)
        ensures
            hint == self@.duration_hint,
    {
        self.duration_hint
    }

    /// The worker's process id, once it is launched.
    pub fn pid(&self) -> (pid: Option<u32>)
        ensures
            pid == self@.pid,
    {
        match self.stage {
            Stage::Waiting => None,
            Stage::Running(pid, _) => Some(pid),
            Stage::Released(pid, _) => Some(pid),
        }
    }

    /// When the worker was launched, once it is.
    pub fn start_instant(&self) -> (start: Option<Millis>)
        ensures
            start == self@.start_instant,
    {
        match self.stage {
            Stage::Waiting => None,
            Stage::Running(_, start) => Some(start),
            Stage::Released(_, start) => Some(start),
        }
    }

    /// The line that the log gets when this process notes `what`: the
    /// name of its script, a space, and `what`.
    pub open spec fn log_line(state: ProcessState, what: Seq<char>) -> Seq<char> {
        state.script + " "@ + what
    }

    /// Notes `what` in the log of the host, under the name of the
    /// script.
    pub fn log<S: Shims>(&self, ns: &NS<S>, what: &str)
        ensures
            exists|line: &str|
                line@ == Self::log_line(self@, what@) && #[trigger] call_ensures(
                    S::print_shim,
                    (&ns@, line),
                    (),
                ),
    {
        let mut line = self.script.clone();
        line.append(" ");
        line.append(what);
        ns.print(line.as_str());
    }

    /// Notes a change of the RAM in the log.
    fn log_ram<S: Shims>(&self, ns: &NS<S>, ram_change: RamChange) {
        let mut what = "updated ram: ".to_owned();
        what.append(ram_change.describe().as_str());
        self.log(ns, what.as_str());
    }

    /// Whether the budget has room for the worker.
    pub fn can_launch(&self, ram_cell: &RamCell) -> (enough: bool)
        ensures
            enough == (ram_cell.available() >= self@.ram_hint),
    {
        ram_cell.can_afford(self.ram_hint)
    }

    /// Computes [`ProcessState::wake_policy`].
    pub fn schedule_wake(&self, now: Millis) -> (policy: WakeDelay)
        ensures
            policy == self@.wake_policy(now),
    {
        match self.start_instant() {
            None => WakeDelay::AfterNextRamRelease,
            Some(start_instant) => {
                let expected_finish = start_instant.saturating_add(self.duration_hint);
                match self.last_polled {
                    Some(last_polled) => if last_polled > expected_finish {
                        WakeDelay::Retry
                    } else {
                        WakeDelay::WakeAt(expected_finish)
                    },
                    None => if now >= expected_finish {
                        WakeDelay::Immediate
                    } else {
                        WakeDelay::WakeAt(expected_finish)
                    },
                }
            },
        }
    }

    /// Takes or gives back the RAM of this process.
    fn update_ram(&self, ram_cell: &mut RamCell, ram_change: RamChange)
        requires
            old(ram_cell).admits(ram_change),
        ensures
            final(ram_cell).available() == old(ram_cell).after(ram_change),
            final(ram_cell).max() == old(ram_cell).max(),
    {
        ram_cell.update(ram_change);
    }

    /// Takes note of the host's answer to the launch of the worker, made
    /// at `now`: see [`launch_outcome`].
    pub fn record_launch(
        &mut self,
        answer: Result<u32, BitburnerError>,
        now: Millis,
        ram_cell: &mut RamCell,
    ) -> (launched: Result<(), String>)
        requires
            !old(self)@.is_launched(),
            old(self)@.ram_hint <= old(ram_cell).available(),
        ensures
            final(self)@.wf(),
            ledger_step(
                old(self)@,
                final(self)@,
                old(ram_cell).available() as int,
                final(ram_cell).available() as int,
            ),
            final(ram_cell).max() == old(ram_cell).max(),
            launch_outcome(
                old(self)@,
                final(self)@,
                old(ram_cell).available(),
                final(ram_cell).available(),
                answer,
                now,
                launched,
            ),
    {
        match answer {
            Ok(pid) => {
                if pid != 0 {
                    self.update_ram(ram_cell, RamChange::Use(self.ram_hint));
                    self.stage = Stage::Running(pid, now);
                    Ok(())
                } else {
                    let mut msg = "Failed to launch ".to_owned();
                    msg.append(self.script.as_str());
                    Err(msg)
                }
            },
            Err(error) => Err(error.into_string()),
        }
    }

    /// Launches the worker at `now`.
    ///
    /// The host is asked to start the script, and its answer is taken
    /// note of as by [`record_launch`](BitburnerProcess::record_launch):
    /// if the worker starts, the RAM hint is taken from the budget and
    /// the process is launched; if not, nothing changes.
    pub fn run<S: Shims>(&mut self, ns: &NS<S>, now: Millis, ram_cell: &mut RamCell) -> (launched:
        Result<(), String>)
        requires
            !old(self)@.is_launched(),
            old(self)@.ram_hint <= old(ram_cell).available(),
        ensures
            final(self)@.wf(),
            ledger_step(
                old(self)@,
                final(self)@,
                old(ram_cell).available() as int,
                final(ram_cell).available() as int,
            ),
            final(ram_cell).max() == old(ram_cell).max(),
            exists|answer: Result<u32, BitburnerError>| #[trigger]
                old(self).launch_answered(ns, answer) && launch_outcome(
                    old(self)@,
                    final(self)@,
                    old(ram_cell).available(),
                    final(ram_cell).available(),
                    answer,
                    now,
                    launched,
                ),
    {
        let script = self.script.as_str();
        let answer = ns.run(script, self.thread_or_options, &self.args);
        let ghost asked = answer;
        proof {
            assert(self.launch_answered(ns, asked));
        }
        let launched = self.record_launch(answer, now, ram_cell);
        if launched.is_ok() {
            self.log_ram(ns, RamChange::Use(self.ram_hint));
        }
        launched
    }

    /// Asks the host whether the worker has ended: whether it no longer
    /// runs. A worker that was not launched has not ended, and the host
    /// is not asked.
    pub fn is_finished<S: Shims>(&self, ns: &NS<S>) -> (finished: Result<bool, BitburnerError>)
        ensures
            !self@.is_launched() ==> finished == Ok::<bool, BitburnerError>(false),
            self@.is_launched() ==> exists|running: Result<bool, BitburnerError>| #[trigger]
                self.running_answered(ns, running) && finished == match running {
                    Ok(running) => Ok::<bool, BitburnerError>(!running),
                    Err(error) => Err::<bool, BitburnerError>(error),
                },
    {
        match self.pid() {
            None => Ok(false),
            Some(pid) => {
                let running = ns.is_running(FilenameOrPID::Pid(pid), None, &self.args);
                proof {
                    assert(self.running_answered(ns, running));
                }
                match running {
                    Ok(running) => Ok(!running),
                    Err(error) => Err(error),
                }
            },
        }
    }

    /// Asks the host whether the worker runs. A worker that was not
    /// launched does not run, and the host is not asked.
    pub fn is_running<S: Shims>(&self, ns: &NS<S>) -> (running: Result<bool, BitburnerError>)
        ensures
            !self@.is_launched() ==> running == Ok::<bool, BitburnerError>(false),
            self@.is_launched() ==> self.running_answered(ns, running),
    {
        match self.pid() {
            None => Ok(false),
            Some(pid) => ns.is_running(FilenameOrPID::Pid(pid), None, &self.args),
        }
    }

    /// Gives the worker's RAM back to the budget, unless that was done
    /// before.
    pub fn release(&mut self, ram_cell: &mut RamCell)
        requires
            old(self)@.is_launched(),
            old(ram_cell).available() + old(self)@.owed() <= old(ram_cell).max(),
        ensures
            final(self)@.wf(),
            ledger_step(
                old(self)@,
                final(self)@,
                old(ram_cell).available() as int,
                final(ram_cell).available() as int,
            ),
            final(self)@ == old(self)@.released(),
            final(ram_cell).available() == old(ram_cell).available() + old(self)@.owed(),
            final(ram_cell).max() == old(ram_cell).max(),
    {
        match self.stage {
            Stage::Running(pid, start) => {
                self.update_ram(ram_cell, RamChange::Release(self.ram_hint));
                self.stage = Stage::Released(pid, start);
            },
            _ => {},
        }
    }

    /// Takes note of the host's answers in an attempt to end the worker
    /// of a launched process: whether it ran, and if so whether the host
    /// then confirmed the kill. Only a confirmed kill of a running
    /// worker gives the RAM back.
    pub fn record_kill(&mut self, was_running: bool, confirmed: bool, ram_cell: &mut RamCell) -> (killed:
        bool)
        requires
            old(self)@.is_launched(),
            old(ram_cell).available() + old(self)@.owed() <= old(ram_cell).max(),
        ensures
            final(self)@.wf(),
            ledger_step(
                old(self)@,
                final(self)@,
                old(ram_cell).available() as int,
                final(ram_cell).available() as int,
            ),
            final(ram_cell).max() == old(ram_cell).max(),
            killed == (was_running && confirmed),
            kill_outcome(
                old(self)@,
                final(self)@,
                old(ram_cell).available(),
                final(ram_cell).available(),
                killed,
            ),
    {
        if was_running && confirmed {
            self.release(ram_cell);
            true
        } else {
            false
        }
    }

    /// Ends the worker if it still runs. This is what becomes of a
    /// process that is given up.
    ///
    /// Returns whether the host confirmed the kill; the RAM is given
    /// back exactly then. The host is asked to kill only a worker that
    /// it reports as running, and an error of the host counts as not
    /// running: see [`kill_asked`](BitburnerProcess::kill_asked).
    pub fn kill<S: Shims>(&mut self, ns: &NS<S>, ram_cell: &mut RamCell) -> (killed: bool)
        requires
            old(ram_cell).available() + old(self)@.owed() <= old(ram_cell).max(),
        ensures
            final(self)@.wf(),
            ledger_step(
                old(self)@,
                final(self)@,
                old(ram_cell).available() as int,
                final(ram_cell).available() as int,
            ),
            final(ram_cell).max() == old(ram_cell).max(),
            kill_outcome(
                old(self)@,
                final(self)@,
                old(ram_cell).available(),
                final(ram_cell).available(),
                killed,
            ),
            exists|running: Result<bool, BitburnerError>, confirmed: bool| #[trigger]
                old(self).kill_asked(ns, running, confirmed, killed),
    {
        match self.pid() {
            Some(pid) => {
                let running = self.is_running(ns);
                let was_running = match &running {
                    Ok(running) => *running,
                    Err(_) => false,
                };
                let confirmed = was_running && ns.kill(pid);
                proof {
                    assert(self.kill_asked(ns, running, confirmed, was_running && confirmed));
                }
                let owing = !self.is_released();
                let killed = self.record_kill(was_running, confirmed, ram_cell);
                if killed {
                    if owing {
                        self.log_ram(ns, RamChange::Release(self.ram_hint));
                    }
                    self.log(ns, "killed");
                }
                killed
            },
            None => {
                proof {
                    assert(self.kill_asked(ns, Ok::<bool, BitburnerError>(false), false, false));
                }
                false
            },
        }
    }

    /// Takes note of the host's answer, in a poll of a launched process,
    /// to whether the worker still runs: see [`running_outcome`].
    pub fn record_running(
        &mut self,
        answer: Result<bool, BitburnerError>,
        now: Millis,
        ram_cell: &mut RamCell,
    ) -> (poll: Poll)
        requires
            old(self)@.is_launched(),
            old(ram_cell).available() + old(self)@.owed() <= old(ram_cell).max(),
        ensures
            final(self)@.wf(),
            ledger_step(
                old(self)@,
                final(self)@,
                old(ram_cell).available() as int,
                final(ram_cell).available() as int,
            ),
            final(ram_cell).max() == old(ram_cell).max(),
            running_outcome(
                old(self)@,
                final(self)@,
                old(ram_cell).available(),
                final(ram_cell).available(),
                answer,
                now,
                poll,
            ),
    {
        match answer {
            Ok(running) => {
                if running {
                    Poll::Pending(self.schedule_wake(now))
                } else {
                    self.release(ram_cell);
                    Poll::Ready(Ok(()))
                }
            },
            Err(error) => Poll::Ready(Err(error.into_string())),
        }
    }

    /// Polls the process at `now`.
    ///
    /// A launched process asks the host whether its worker still runs:
    /// if not, the task ends well and the RAM is given back; if so, it
    /// parks until the expected end of the worker, or for the back-off
    /// where that end has passed. A process that is not launched parks
    /// until RAM is released unless the budget has room; if it has, the
    /// worker is launched, the RAM taken, and the task parks until the
    /// expected end. An error of the host, or a refused launch, ends the
    /// task with a message and changes nothing else.
    ///
    /// The host is asked one question at most, and what comes of the
    /// poll is what [`poll_outcome`] makes of its answer. The poll, a
    /// change of the RAM and the policy of a task that parks are noted in
    /// the log.
    pub fn poll<S: Shims>(&mut self, ns: &NS<S>, now: Millis, ram_cell: &mut RamCell) -> (poll: Poll)
        requires
            old(ram_cell).available() + old(self)@.owed() <= old(ram_cell).max(),
        ensures
            final(self)@.wf(),
            final(ram_cell).max() == old(ram_cell).max(),
            ledger_step(
                old(self)@,
                final(self)@,
                old(ram_cell).available() as int,
                final(ram_cell).available() as int,
            ),
            exists|answer: HostAnswer| #[trigger]
                old(self).answered(ns, answer) && poll_outcome(
                    old(self)@,
                    final(self)@,
                    old(ram_cell).available(),
                    final(ram_cell).available(),
                    answer,
                    now,
                    poll,
                ),
            poll matches Poll::Ready(Ok(_)) ==> old(self)@.is_launched() && final(self)@.is_released,
            poll matches Poll::Pending(_) ==> final(self)@.is_released == old(self)@.is_released,
    {
        self.last_polled = Some(now);
        let mut polled_at = "being polled at ".to_owned();
        polled_at.append(seconds(now).as_str());
        self.log(ns, polled_at.as_str());
        let poll = if self.is_launched() {
            let owing = !self.is_released();
            let answer = self.is_running(ns);
            let ghost asked = HostAnswer::Running(answer);
            proof {
                assert(old(self).answered(ns, asked));
            }
            let poll = self.record_running(answer, now, ram_cell);
            if owing && self.is_released() {
                self.log_ram(ns, RamChange::Release(self.ram_hint));
            }
            poll
        } else {
            if self.can_launch(ram_cell) {
                let script = self.script.as_str();
                let answer = ns.run(script, self.thread_or_options, &self.args);
                let ghost asked = HostAnswer::Launched(answer);
                proof {
                    assert(old(self).launch_answered(ns, answer));
                    assert(old(self).answered(ns, asked));
                }
                match self.record_launch(answer, now, ram_cell) {
                    Err(msg) => {
                        return Poll::Ready(Err(msg));
                    },
                    Ok(_) => {
                        self.log_ram(ns, RamChange::Use(self.ram_hint));
                    },
                }
            } else {
                proof {
                    assert(old(self).answered(ns, HostAnswer::NotAsked));
                }
            }
            Poll::Pending(self.schedule_wake(now))
        };
        match &poll {
            Poll::Pending(policy) => {
                let mut scheduled = "scheduled wake: ".to_owned();
                scheduled.append(policy.describe().as_str());
                self.log(ns, scheduled.as_str());
            },
            Poll::Ready(_) => {},
        }
        poll
    }
}

/// A poll takes RAM from the budget only by launching: what is
/// available goes down only where the process was not launched, the
/// budget had room for it and the host launched its worker, and then by
/// exactly the hint. A poll of a launched process asks for no launch,
/// keeps the worker's process id and start instant, and never lowers
/// what is available.
pub proof fn lemma_poll_debits_only_on_launch(
    before: ProcessState,
    after: ProcessState,
    available_before: Ram,
    available_after: Ram,
    answer: HostAnswer,
    now: Millis,
    poll: Poll,
)
    requires
        poll_outcome(before, after, available_before, available_after, answer, now, poll),
    ensures
        available_after < available_before ==> {
            &&& !before.is_launched()
            &&& before.ram_hint <= available_before
            &&& answer matches HostAnswer::Launched(Ok(pid)) && pid != 0
            &&& available_after == available_before - before.ram_hint
            &&& after.is_launched()
        },
        before.is_launched() ==> {
            &&& !(answer is Launched)
            &&& available_after >= available_before
            &&& after.pid == before.pid
            &&& after.start_instant == before.start_instant
        },
{
}

/// Every process is well formed: see [`ProcessState::wf`].
pub proof fn lemma_process_wf(process: BitburnerProcess)
    ensures
        process@.wf(),
{
}

/// Over any number of steps of one process the ledger stays balanced:
/// steps compose.
pub proof fn lemma_ledger_steps_compose(
    first: ProcessState,
    second: ProcessState,
    third: ProcessState,
    available_first: int,
    available_second: int,
    available_third: int,
)
    requires
        ledger_step(first, second, available_first, available_second),
        ledger_step(second, third, available_second, available_third),
    ensures
        ledger_step(first, third, available_first, available_third),
{
}

/// What a balanced ledger means for the budget. From a state in which
/// the process is not launched, what is available has gone down by the
/// hint while the process is launched and not released, and is back
/// where it was once it is released: one debit, and one credit at most.
/// From a released state on, nothing is credited again.
pub proof fn lemma_ledger_debits_once_credits_once(
    before: ProcessState,
    after: ProcessState,
    available_before: int,
    available_after: int,
)
    requires
        ledger_step(before, after, available_before, available_after),
    ensures
        !before.is_launched() && !after.is_launched() ==> available_after == available_before,
        !before.is_launched() && after.is_launched() && !after.is_released ==> available_after
            == available_before - before.ram_hint,
        !before.is_launched() && after.is_released ==> available_after == available_before,
        before.is_launched() && !before.is_released && after.is_released ==> available_after
            == available_before + before.ram_hint,
        before.is_released ==> after.is_released && available_after == available_before,
{
}

} // verus!
