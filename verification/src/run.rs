//! The scheduler: executor, reactor, process state machines and wakers.

use crate::netscript::thread_count;
use crate::netscript::Arg;
use crate::netscript::BitburnerError;
use crate::netscript::Shims;
use crate::netscript::ThreadOrOptions;
use crate::netscript::NS;
use crate::Millis;
use crate::Ram;
use vstd::prelude::*;

pub mod executor;
pub mod process;
pub mod reactor;
pub mod waker;

pub use executor::BitburnerExecutor;
pub use executor::RamCell;
pub use executor::RamChange;
pub use executor::TaskResult;
pub use process::BitburnerProcess;
pub use process::ProcessState;
pub use process::Poll;
pub use reactor::BitburnerReactor;
pub use reactor::WakeDelay;
pub use waker::SimpleWaker;
pub use waker::TaskId;

verus! {

/// RAM that one thread of the hack script takes.
pub const HACK_RAM_PER_THREAD: Ram = 170;

/// RAM that one thread of the grow script takes.
pub const GROW_RAM_PER_THREAD: Ram = 175;

/// RAM that one thread of the weaken script takes.
pub const WEAKEN_RAM_PER_THREAD: Ram = 175;

/// The three worker scripts.
#[derive(Debug, Clone, Copy, PartialEq, Eq, Structural)]
pub enum Script {
    Hack,
    Grow,
    Weaken,
}

impl Script {
    /// The file the script is in.
    pub open spec fn file(self) -> Seq<char> {
        match self {
            Script::Hack => "hack.js"@,
            Script::Grow => "grow.js"@,
            Script::Weaken => "weaken.js"@,
        }
    }

    /// The RAM one thread of the script takes.
    pub open spec fn ram_per_thread(self) -> Ram {
        match self {
            Script::Hack => HACK_RAM_PER_THREAD,
            Script::Grow => GROW_RAM_PER_THREAD,
            Script::Weaken => WEAKEN_RAM_PER_THREAD,
        }
    }
}

/// Whether a process is one for a worker script against `host` that was
/// not launched yet: the script gets the host's name as its one
/// argument, and its RAM hint is the script's RAM per thread times the
/// number of threads.
pub open spec fn is_worker_process(
    process: ProcessState,
    script: Script,
    host: Seq<char>,
    thread_or_options: Option<ThreadOrOptions>,
) -> bool {
    &&& process.script == script.file()
    &&& process.thread_or_options == thread_or_options
    &&& process.args.len() == 1
    &&& process.args[0] matches Arg::String(name) && name@ == host
    &&& process.ram_hint == script.ram_per_thread() * thread_count(thread_or_options)
    &&& process.pid is None
    &&& !process.is_released
    &&& process.start_instant is None
    &&& process.last_polled is None
}

/// A process for one of the worker scripts against `host`, which is
/// expected to run for `duration_hint`: see [`is_worker_process`].
pub fn worker_process(
    script: Script,
    host: &str,
    thread_or_options: Option<ThreadOrOptions>,
    duration_hint: Millis,
) -> (made: BitburnerProcess)
    ensures
        is_worker_process(made@, script, host@, thread_or_options),
        made@.duration_hint == duration_hint,
{
    let (file, ram_hint_per_thread): (&str, Ram) = match script {
        Script::Hack => ("hack.js", HACK_RAM_PER_THREAD),
        Script::Grow => ("grow.js", GROW_RAM_PER_THREAD),
        Script::Weaken => ("weaken.js", WEAKEN_RAM_PER_THREAD),
    };
    let threads = ThreadOrOptions::threads(&thread_or_options);
    let mut args: Vec<Arg> = Vec::new();
    args.push(Arg::String(host.to_owned()));
    assert(ram_hint_per_thread * threads <= u64::MAX) by (nonlinear_arith)
        requires
            ram_hint_per_thread <= 175,
            threads <= u32::MAX,
    ;
    BitburnerProcess::new(
        file.to_owned(),
        thread_or_options,
        args,
        duration_hint,
        ram_hint_per_thread * (threads as u64),
    )
}

/// A process that hacks `host`. The host is asked how long a hack
/// takes, and its answer is the duration hint; where it answers with an
/// error, that error is returned and no process is made.
pub fn hack_process<S: Shims>(ns: &NS<S>, host: &str, thread_or_options: Option<ThreadOrOptions>) -> (made:
    Result<BitburnerProcess, BitburnerError>)
    ensures
        match made {
            Ok(p) => {
                &&& call_ensures(S::get_hack_time_shim, (&ns@, host), Ok::<Millis, BitburnerError>(p@.duration_hint))
                &&& is_worker_process(p@, Script::Hack, host@, thread_or_options)
            },
            Err(error) => call_ensures(S::get_hack_time_shim, (&ns@, host), Err::<Millis, BitburnerError>(error)),
        },
{
    match ns.get_hack_time(host) {
        Ok(duration_hint) => Ok(worker_process(Script::Hack, host, thread_or_options, duration_hint)),
        Err(error) => Err(error),
    }
}

/// A process that grows `host`. The host is asked how long a grow
/// takes, and its answer is the duration hint; where it answers with an
/// error, that error is returned and no process is made.
pub fn grow_process<S: Shims>(ns: &NS<S>, host: &str, thread_or_options: Option<ThreadOrOptions>) -> (made:
    Result<BitburnerProcess, BitburnerError>)
    ensures
        match made {
            Ok(p) => {
                &&& call_ensures(S::get_grow_time_shim, (&ns@, host), Ok::<Millis, BitburnerError>(p@.duration_hint))
                &&& is_worker_process(p@, Script::Grow, host@, thread_or_options)
            },
            Err(error) => call_ensures(S::get_grow_time_shim, (&ns@, host), Err::<Millis, BitburnerError>(error)),
        },
{
    match ns.get_grow_time(host) {
        Ok(duration_hint) => Ok(worker_process(Script::Grow, host, thread_or_options, duration_hint)),
        Err(error) => Err(error),
    }
}

/// A process that weakens `host`. The host is asked how long a weaken
/// takes, and its answer is the duration hint; where it answers with an
/// error, that error is returned and no process is made.
pub fn weaken_process<S: Shims>(
    ns: &NS<S>,
    host: &str,
    thread_or_options: Option<ThreadOrOptions>,
) -> (made: Result<BitburnerProcess, BitburnerError>)
    ensures
        match made {
            Ok(p) => {
                &&& call_ensures(S::get_weaken_time_shim, (&ns@, host), Ok::<Millis, BitburnerError>(p@.duration_hint))
                &&& is_worker_process(p@, Script::Weaken, host@, thread_or_options)
            },
            Err(error) => call_ensures(S::get_weaken_time_shim, (&ns@, host), Err::<Millis, BitburnerError>(error)),
        },
{
    match ns.get_weaken_time(host) {
        Ok(duration_hint) => Ok(
            worker_process(Script::Weaken, host, thread_or_options, duration_hint),
        ),
        Err(error) => Err(error),
    }
}

} // verus!
