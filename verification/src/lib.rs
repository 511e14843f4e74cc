//! A cooperative scheduler that launches worker scripts on a host within
//! a RAM budget, with the host's interface and the helpers of the build
//! tool that go with it.
//!
//! The scheduler is in [`run`]: an [executor](run::BitburnerExecutor)
//! owns the tasks, each a [process](run::BitburnerProcess) that stands
//! for one worker, and a [reactor](run::BitburnerReactor) that keeps the
//! wakers of parked tasks. Everything runs on one thread and nothing is
//! shared: the executor lends what a call needs for the length of the
//! call.
//!
//! The library does not sleep and does not read a clock. Each call is
//! told the time, and the caller carries out the sleep that
//! [`sleep_for`](run::BitburnerExecutor::sleep_for) asks for between two
//! [`turn`](run::BitburnerExecutor::turn)s. The host is reached through
//! [`NS`], over an implementation of [`Shims`] that the caller brings.
//!
//! Time is counted in whole milliseconds and RAM in hundredths of a
//! gigabyte. Other numbers of the host are carried as [`F64Total`].

use vstd::prelude::*;

pub mod batch;
pub mod f64_total;
pub mod find_servers;
pub mod netscript;
pub mod run;
pub mod simple_channel;
pub mod text;
pub mod thread_search;
pub mod weaken_all;
pub mod xtask;

pub use f64_total::F64Total;
pub use netscript::BitburnerError;
pub use netscript::Shims;
pub use netscript::NS;
pub use run::grow_process;
pub use run::hack_process;
pub use run::weaken_process;
pub use run::BitburnerExecutor;
pub use run::BitburnerProcess;
pub use weaken_all::weaken_all;

verus! {

/// A point or a span of time, in milliseconds of the monotone clock.
pub type Millis = u64;

/// An amount of RAM, in hundredths of a gigabyte.
pub type Ram = u64;

/// Back-off before a task whose worker overran its estimate is polled
/// again.
pub const RETRY_WAIT: Millis = 25;

/// Whether the player's hacking level allows an attempt on a server,
/// given what the host answered on the level the server requires. Where
/// the host refused to answer, it does not.
pub open spec fn level_allows<E>(hacking_level: u32, required_level: Result<u32, E>) -> bool {
    required_level matches Ok(level) && hacking_level >= level
}

/// Computes [`level_allows`].
pub fn has_level<E>(hacking_level: u32, required_level: &Result<u32, E>) -> (allowed: bool)
    ensures
        allowed == level_allows(hacking_level, *required_level),
{
    match required_level {
        Ok(level) => hacking_level >= *level,
        Err(_) => false,
    }
}

/// Whether the host gave `level` as the player's hacking level and
/// `required` as its answer on the level that `host` requires.
pub open spec fn levels_answered<S: Shims>(
    ns: &NS<S>,
    host: &str,
    level: u32,
    required: Result<u32, BitburnerError>,
) -> bool {
    &&& call_ensures(S::get_hacking_level_shim, (&ns@,), level)
    &&& call_ensures(S::get_server_required_hacking_level_shim, (&ns@, host), required)
}

/// Tries to gain root access to `host`: with a sufficient hacking
/// level, opens the SSH and FTP ports and nukes the server. Returns
/// whether every step went through. No program is run once a step has
/// failed, and none where the hacking level does not allow the attempt.
///
/// So the attempt succeeds only where the host gave levels that allow
/// it and ran each of the three programs without an error; and it fails
/// only where the host gave levels that do not allow it, or answered
/// one of the programs with an error.
pub fn try_root<S: Shims>(ns: &NS<S>, host: &str) -> (rooted: bool)
    ensures
        rooted ==> {
            &&& exists|level: u32, required: Result<u32, BitburnerError>| #[trigger]
                levels_answered(ns, host, level, required) && level_allows(level, required)
            &&& call_ensures(S::brutessh_shim, (&ns@, host), Ok::<(), BitburnerError>(()))
            &&& call_ensures(S::ftpcrack_shim, (&ns@, host), Ok::<(), BitburnerError>(()))
            &&& call_ensures(S::nuke_shim, (&ns@, host), Ok::<(), BitburnerError>(()))
        },
        !rooted ==> {
            ||| exists|level: u32, required: Result<u32, BitburnerError>| #[trigger]
                levels_answered(ns, host, level, required) && !level_allows(level, required)
            ||| exists|error: BitburnerError| #[trigger]
                call_ensures(S::brutessh_shim, (&ns@, host), Err::<(), BitburnerError>(error))
            ||| exists|error: BitburnerError| #[trigger]
                call_ensures(S::ftpcrack_shim, (&ns@, host), Err::<(), BitburnerError>(error))
            ||| exists|error: BitburnerError| #[trigger]
                call_ensures(S::nuke_shim, (&ns@, host), Err::<(), BitburnerError>(error))
        },
{
    let hack_level = ns.get_hacking_level();
    let required_level = ns.get_server_required_hacking_level(host);
    proof {
        assert(levels_answered(ns, host, hack_level, required_level));
    }
    if !has_level(hack_level, &required_level) {
        return false;
    }
    match ns.brute_ssh(host) {
        Ok(done) => {
            assert(done == ());
        },
        Err(error) => {
            assert(call_ensures(S::brutessh_shim, (&ns@, host), Err::<(), BitburnerError>(error)));
            return false;
        },
    }
    match ns.ftpcrack(host) {
        Ok(done) => {
            assert(done == ());
        },
        Err(error) => {
            assert(call_ensures(S::ftpcrack_shim, (&ns@, host), Err::<(), BitburnerError>(error)));
            return false;
        },
    }
    match ns.nuke(host) {
        Ok(done) => {
            assert(done == ());
        },
        Err(error) => {
            assert(call_ensures(S::nuke_shim, (&ns@, host), Err::<(), BitburnerError>(error)));
            return false;
        },
    }
    true
}

} // verus!
