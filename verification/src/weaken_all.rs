//! Weakens every hackable server down to its lowest security level, as
//! far as the RAM of the current server allows at a time.

use crate::f64_total::F64Total;
use crate::find_servers::find_hackable_servers;
use crate::find_servers::hackable_found;
use crate::find_servers::names_of;
use crate::netscript::BitburnerError;
use crate::netscript::Shims;
use crate::netscript::ThreadOrOptions;
use crate::netscript::NS;
use crate::run::executor::total_owed;
use crate::run::executor::BitburnerExecutor;
use crate::run::process::ProcessState;
use crate::run::is_worker_process;
use crate::run::reactor::WakeDelay;
use crate::run::waker::TaskId;
use crate::run::weaken_process;
use crate::run::Script;
use crate::thread_search::get_threads_for_full_weaken;
use crate::thread_search::is_weaken_thread_count;
use crate::thread_search::MAX_SEARCH_THREADS;
use crate::Millis;
use crate::Ram;
use vstd::prelude::*;

verus! {

/// The RAM that is free on a server with `max_ram` of which `used_ram`
/// is in use: the difference, and nothing where more is in use than
/// there is.
pub open spec fn free_ram(max_ram: Ram, used_ram: Ram) -> Ram {
    if used_ram <= max_ram {
        (max_ram - used_ram) as u64
    } else {
        0
    }
}

/// Computes [`free_ram`].
pub fn free_ram_of(max_ram: Ram, used_ram: Ram) -> (free: Ram)
    ensures
        free == free_ram(max_ram, used_ram),
{
    max_ram.saturating_sub(used_ram)
}

/// Whether `free` is the RAM that the host reported as free on the
/// server that it named as the one the script runs on.
pub open spec fn free_ram_answered<S: Shims>(ns: &NS<S>, free: Ram) -> bool {
    exists|host: String, name: &str, max_ram: Ram, used_ram: Ram|
        {
            &&& name@ == host@
            &&& #[trigger] call_ensures(S::get_hostname_shim, (&ns@,), host)
            &&& #[trigger] call_ensures(
                S::get_server_max_ram_shim,
                (&ns@, name),
                Ok::<Ram, BitburnerError>(max_ram),
            )
            &&& #[trigger] call_ensures(
                S::get_server_used_ram_shim,
                (&ns@, name),
                Ok::<Ram, BitburnerError>(used_ram),
            )
            &&& free == free_ram(max_ram, used_ram)
        }
}

/// Whether a process is a weaken of some server with at least one
/// thread, not launched yet.
pub open spec fn is_weaken_task(process: ProcessState) -> bool {
    exists|host: Seq<char>, threads: u32|
        threads > 0 && #[trigger] is_worker_process(
            process,
            Script::Weaken,
            host,
            Some(ThreadOrOptions::Threads(threads)),
        )
}

/// Whether the host refused a question of the set-up with an error
/// whose message is `msg`: on the RAM of a server or the RAM in use
/// there, on the lowest or the current security level of a server, or
/// on the time that a weaken of a server takes.
pub open spec fn host_refused<S: Shims>(ns: &NS<S>, msg: Seq<char>) -> bool {
    ||| exists|host: &str, error: BitburnerError|
        msg == error@ && #[trigger] call_ensures(
            S::get_server_max_ram_shim,
            (&ns@, host),
            Err::<Ram, BitburnerError>(error),
        )
    ||| exists|host: &str, error: BitburnerError|
        msg == error@ && #[trigger] call_ensures(
            S::get_server_used_ram_shim,
            (&ns@, host),
            Err::<Ram, BitburnerError>(error),
        )
    ||| exists|host: &str, error: BitburnerError|
        msg == error@ && #[trigger] call_ensures(
            S::get_server_min_security_level_shim,
            (&ns@, host),
            Err::<F64Total, BitburnerError>(error),
        )
    ||| exists|host: &str, error: BitburnerError|
        msg == error@ && #[trigger] call_ensures(
            S::get_server_security_level_shim,
            (&ns@, host),
            Err::<F64Total, BitburnerError>(error),
        )
    ||| exists|host: &str, error: BitburnerError|
        msg == error@ && #[trigger] call_ensures(
            S::get_weaken_time_shim,
            (&ns@, host),
            Err::<Millis, BitburnerError>(error),
        )
}

/// Whether `threads` is a number of weaken threads that is enough for
/// `host` as [`is_weaken_thread_count`] says, where `enough` says of a
/// server and a number whether it is.
pub open spec fn weaken_count_for<E: Fn(&str, u32) -> bool>(
    enough: E,
    host: &str,
    threads: u32,
) -> bool {
    &&& 1 <= threads <= MAX_SEARCH_THREADS
    &&& threads == MAX_SEARCH_THREADS || enough.ensures((host, threads), true)
    &&& threads == 1 || enough.ensures((host, (threads - 1) as u32), false)
}

/// Whether `threads` is the number of threads for a full weaken of the
/// server `name`, by the security levels that the host gave for it:
/// none where the server is at its lowest level, and a number that is
/// enough otherwise.
pub open spec fn threads_answered<S: Shims, E: Fn(&str, u32) -> bool>(
    ns: &NS<S>,
    enough: E,
    name: Seq<char>,
    threads: u32,
) -> bool {
    exists|host: &str, min_security: F64Total, cur_security: F64Total|
        {
            &&& host@ == name
            &&& #[trigger] call_ensures(
                S::get_server_min_security_level_shim,
                (&ns@, host),
                Ok::<F64Total, BitburnerError>(min_security),
            )
            &&& #[trigger] call_ensures(
                S::get_server_security_level_shim,
                (&ns@, host),
                Ok::<F64Total, BitburnerError>(cur_security),
            )
            &&& cur_security.key() <= min_security.key() ==> threads == 0
            &&& cur_security.key() > min_security.key() ==> weaken_count_for(
                enough,
                host,
                threads,
            )
        }
}

/// Whether `task` is the weaken of the server `name` with `threads`
/// threads, not launched, that is expected to run for as long as the
/// host said a weaken of the server takes.
pub open spec fn weaken_planned<S: Shims>(
    ns: &NS<S>,
    name: Seq<char>,
    threads: u32,
    task: ProcessState,
) -> bool {
    &&& is_worker_process(task, Script::Weaken, name, Some(ThreadOrOptions::Threads(threads)))
    &&& exists|host: &str|
        host@ == name && #[trigger] call_ensures(
            S::get_weaken_time_shim,
            (&ns@, host),
            Ok::<Millis, BitburnerError>(task.duration_hint),
        )
}

/// Whether `tasks` are the weakens planned for the servers `names` with
/// the numbers of threads `threads`: one task for each server that
/// needs a thread, in the order of the servers, and none for a server
/// that needs none.
pub open spec fn weakens_planned<S: Shims>(
    ns: &NS<S>,
    names: Seq<Seq<char>>,
    threads: Seq<u32>,
    tasks: Seq<ProcessState>,
) -> bool
    decreases names.len(),
{
    if threads.len() != names.len() {
        false
    } else if names.len() == 0 {
        tasks.len() == 0
    } else if threads.last() == 0 {
        weakens_planned(ns, names.drop_last(), threads.drop_last(), tasks)
    } else {
        &&& tasks.len() > 0
        &&& weaken_planned(ns, names.last(), threads.last(), tasks.last())
        &&& weakens_planned(ns, names.drop_last(), threads.drop_last(), tasks.drop_last())
    }
}

/// Processes that were not launched owe nothing.
pub proof fn lemma_unlaunched_owe_nothing(tasks: Seq<ProcessState>)
    requires
        forall|i: int| 0 <= i < tasks.len() ==> !(#[trigger] tasks[i]).is_launched(),
    ensures
        total_owed(tasks) == 0,
    decreases tasks.len(),
{
    if tasks.len() > 0 {
        let rest = tasks.drop_last();
        assert forall|i: int| 0 <= i < rest.len() implies !(#[trigger] rest[i]).is_launched() by {
            assert(rest[i] == tasks[i]);
        }
        lemma_unlaunched_owe_nothing(rest);
        assert(tasks.last() == tasks[tasks.len() - 1]);
    }
}

/// Sets up the weakening of all hackable servers from the current
/// server: an executor whose budget is the RAM free there (see
/// [`free_ram`]), with one
/// weaken process registered for every hackable server above its lowest
/// security level, the most profitable server first.
///
/// `enough` says of a server and a number of threads whether a weaken
/// with as many brings the server to its lowest level; `rate` gives the
/// rate at which a server makes money. The host's logging is switched
/// off for the set-up. An error of the host ends the set-up and is
/// returned as its message: the set-up fails only where the host
/// refused one of its questions, as [`host_refused`] says.
///
/// The servers are those that [`find_hackable_servers`] finds, in its
/// order; each gets the number of threads that the host's answers on
/// its security levels and `enough` give, as [`threads_answered`]
/// says; and the tasks are the weakens planned for them, as
/// [`weakens_planned`] says.
///
/// Every process of the executor returned is a weaken that is not
/// launched, so all of its budget is available, and the reactor has a
/// request for the first poll of each. The caller runs it, one
/// [`turn`](BitburnerExecutor::turn) after each sleep.
pub fn weaken_all<S: Shims, E: Fn(&str, u32) -> bool, R: Fn(&str) -> F64Total>(
    ns: &NS<S>,
    enough: &E,
    rate: &R,
) -> (ready: Result<BitburnerExecutor, String>)
    requires
        forall|name: &str, threads: u32| enough.requires((name, threads)),
        forall|name: &str| rate.requires((name,)),
    ensures
        ready matches Ok(executor) ==> {
            &&& executor.wf()
            &&& free_ram_answered(ns, executor@.max)
            &&& executor@.covered()
            &&& executor@.available == executor@.max
            &&& executor@.woken.len() == 0
            &&& executor@.reactor.timeline.len() == 0
            &&& executor@.reactor.ram.len() == 0
            &&& executor@.reactor.inbox.len() == executor@.tasks.len()
            &&& forall|i: int|
                0 <= i < executor@.tasks.len() ==> is_weaken_task(#[trigger] executor@.tasks[i])
            &&& forall|i: int|
                0 <= i < executor@.tasks.len() ==> (#[trigger] executor@.reactor.inbox[i]) == (
                    WakeDelay::Immediate,
                    TaskId { index: i as usize },
                )
            &&& exists|names: Seq<Seq<char>>, threads: Seq<u32>|
                {
                    &&& #[trigger] weakens_planned(ns, names, threads, executor@.tasks)
                    &&& hackable_found(ns, *rate, names)
                    &&& forall|k: int|
                        0 <= k < names.len() ==> #[trigger] threads_answered(
                            ns,
                            *enough,
                            names[k],
                            threads[k],
                        )
                }
        },
        ready matches Err(msg) ==> host_refused(ns, msg@),
{
    let _ = ns.disable_log("ALL");
    let host = ns.get_hostname();
    let name = host.as_str();
    let max_ram = match ns.get_server_max_ram(name) {
        Ok(ram) => ram,
        Err(error) => {
            proof {
                assert(host_refused(ns, error@));
            }
            return Err(error.into_string());
        },
    };
    let used_ram = match ns.get_server_used_ram(name) {
        Ok(ram) => ram,
        Err(error) => {
            proof {
                assert(host_refused(ns, error@));
            }
            return Err(error.into_string());
        },
    };
    let mut executor = BitburnerExecutor::new(free_ram_of(max_ram, used_ram));
    proof {
        assert(free_ram_answered(ns, executor@.max));
    }
    let hackable_servers = find_hackable_servers(ns, rate);
    let ghost names = names_of(hackable_servers@);
    let ghost mut counts: Seq<u32> = Seq::empty();
    let mut k: usize = 0;
    proof {
        assert(names.take(0) =~= Seq::<Seq<char>>::empty());
    }
    while k < hackable_servers.len()
        invariant
            k <= hackable_servers@.len(),
            names == names_of(hackable_servers@),
            counts.len() == k,
            weakens_planned(ns, names.take(k as int), counts, executor@.tasks),
            forall|j: int|
                0 <= j < k ==> #[trigger] threads_answered(ns, *enough, names[j], counts[j]),
            forall|i: int|
                0 <= i < executor@.tasks.len() ==> (#[trigger] executor@.reactor.inbox[i]) == (
                    WakeDelay::Immediate,
                    TaskId { index: i as usize },
                ),
            executor.wf(),
            free_ram_answered(ns, executor@.max),
            executor@.covered(),
            executor@.woken.len() == 0,
            executor@.reactor.timeline.len() == 0,
            executor@.reactor.ram.len() == 0,
            executor@.reactor.inbox.len() == executor@.tasks.len(),
            forall|i: int|
                0 <= i < executor@.tasks.len() ==> is_weaken_task(#[trigger] executor@.tasks[i]),
            forall|name: &str, threads: u32| enough.requires((name, threads)),
        decreases hackable_servers@.len() - k,
    {
        let target = hackable_servers[k].as_str();
        let enough_here = |threads: u32| -> (answer: bool)
            ensures
                enough.ensures((target, threads), answer),
            { enough(target, threads) };
        let threads = match get_threads_for_full_weaken(ns, target, &enough_here) {
            Ok(threads) => threads,
            Err(error) => {
                proof {
                    assert(host_refused(ns, error@));
                }
                return Err(error.into_string());
            },
        };
        let ghost planned = counts;
        let ghost registered = executor@;
        proof {
            let (min_security, cur_security) = choose|
                min_security: F64Total,
                cur_security: F64Total,
            |
                {
                    &&& #[trigger] call_ensures(
                        S::get_server_min_security_level_shim,
                        (&ns@, target),
                        Ok::<F64Total, BitburnerError>(min_security),
                    )
                    &&& #[trigger] call_ensures(
                        S::get_server_security_level_shim,
                        (&ns@, target),
                        Ok::<F64Total, BitburnerError>(cur_security),
                    )
                    &&& cur_security.key() <= min_security.key() ==> threads == 0
                    &&& cur_security.key() > min_security.key() ==> is_weaken_thread_count(
                        enough_here,
                        threads,
                    )
                };
            if cur_security.key() > min_security.key() {
                assert(weaken_count_for(*enough, target, threads));
            }
            assert(names[k as int] == target@);
            assert(threads_answered(ns, *enough, names[k as int], threads));
            counts = planned.push(threads);
            assert(counts.drop_last() =~= planned);
            assert(names.take(k + 1).drop_last() =~= names.take(k as int));
            assert(names.take(k + 1).last() == names[k as int]);
        }
        if threads > 0 {
            let weaken = match weaken_process(ns, target, Some(ThreadOrOptions::Threads(threads))) {
                Ok(weaken) => weaken,
                Err(error) => {
                    proof {
                        assert(host_refused(ns, error@));
                    }
                    return Err(error.into_string());
                },
            };
            proof {
                assert(is_weaken_task(weaken@));
                assert(weaken_planned(ns, names[k as int], threads, weaken@));
            }
            let ghost before = executor@.tasks;
            executor.register(weaken);
            proof {
                assert(executor@.tasks.drop_last() =~= before);
                assert(weakens_planned(ns, names.take(k + 1), counts, executor@.tasks));
                assert forall|i: int| 0 <= i < executor@.tasks.len() implies (
                #[trigger] executor@.reactor.inbox[i]) == (
                    WakeDelay::Immediate,
                    TaskId { index: i as usize },
                ) by {
                    if i < before.len() {
                        assert(executor@.reactor.inbox[i] == registered.reactor.inbox[i]);
                    }
                }
                assert forall|i: int| 0 <= i < executor@.tasks.len() implies is_weaken_task(
                    #[trigger] executor@.tasks[i],
                ) by {
                    if i < before.len() {
                        assert(executor@.tasks[i] == before[i]);
                    }
                }
            }
        }
        proof {
            assert(weakens_planned(ns, names.take(k + 1), counts, executor@.tasks));
        }
        k += 1;
    }
    let _ = ns.enable_log("ALL");
    proof {
        assert(names.take(k as int) =~= names);
        assert forall|i: int| 0 <= i < executor@.tasks.len() implies !(
        #[trigger] executor@.tasks[i]).is_launched() by {
            assert(is_weaken_task(executor@.tasks[i]));
        }
        lemma_unlaunched_owe_nothing(executor@.tasks);
    }
    Ok(executor)
}

} // verus!
