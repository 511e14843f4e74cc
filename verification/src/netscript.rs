//! The host interface: the calls a script can make, and the values that
//! go with them.
//!
//! The calls themselves are made outside this library, through an
//! implementation of [`Shims`]. Nothing is assumed of what the host
//! answers. Numbers that the scheduler computes with cross the boundary
//! as integers: times in milliseconds, RAM in hundredths of a gigabyte.
//! Other numbers are carried as [`F64Total`].

use crate::f64_total::F64Total;
use crate::text::decimal;
use crate::text::decimal_text;
use crate::Millis;
use crate::Ram;
use vstd::prelude::*;

pub mod arg_types;
pub mod return_types;

pub use arg_types::arg_of;
pub use arg_types::port_data_of;
pub use arg_types::thread_count;
pub use arg_types::Arg;
pub use arg_types::BasicHGWOptions;
pub use arg_types::FilenameOrPID;
pub use arg_types::PortData;
pub use arg_types::RunOptions;
pub use arg_types::ThreadOrOptions;
pub use return_types::BitburnerError;

verus! {

/// What the host reports of a running script.
#[derive(Debug, Clone, PartialEq)]
pub struct RunningScript {
    pub args: Vec<Arg>,
    pub filename: String,
    pub logs: Vec<String>,
    pub offline_exp_gained: F64Total,
    pub offline_money_made: F64Total,
    pub offline_running_time: F64Total,
    pub online_exp_gained: F64Total,
    pub online_money_made: F64Total,
    pub online_running_time: F64Total,
    pub pid: u32,
    pub ram_usage: Ram,
    pub server: String,
    pub title: String,
    pub threads: u32,
    pub temporary: bool,
}

/// The raw calls into the host, one method for each call of the host's
/// interface. An implementation makes the call and converts the values;
/// it decides nothing.
pub trait Shims {
    /// The host's record of a server.
    type Server;

    /// The host's handle of a port.
    type Port;

    /// The call behind [`NS::args`].
    fn args_shim(&self) -> Vec<Arg>;

    /// The call behind [`NS::pid`].
    fn pid_shim(&self) -> u32;

    /// The call behind [`NS::weaken_analyze`].
    fn weaken_analyze_shim(&self, threads: u32, cores: Option<u32>) -> F64Total;

    /// The call behind [`NS::hack_analyze`].
    fn hack_analyze_shim(&self, host: &str) -> Result<F64Total, BitburnerError>;

    /// The call behind [`NS::hack_analyze_security`].
    fn hack_analyze_security_shim(&self, threads: u32, hostname: Option<&str>) -> Result<
        F64Total,
        BitburnerError,
    >;

    /// The call behind [`NS::hack_analyze_chance`].
    fn hack_analyze_chance_shim(&self, host: &str) -> Result<F64Total, BitburnerError>;

    /// The call behind [`NS::growth_analyze`].
    fn growth_analyze_shim(&self, host: &str, multiplier: F64Total, cores: Option<u32>) -> Result<
        F64Total,
        BitburnerError,
    >;

    /// The call behind [`NS::growth_analyze_security`].
    fn growth_analyze_security_shim(
        &self,
        threads: u32,
        hostname: Option<&str>,
        cores: Option<u32>,
    ) -> Result<F64Total, BitburnerError>;

    /// The call behind [`NS::print`].
    fn print_shim(&self, to_print: &str);

    /// The call behind [`NS::tprint`].
    fn tprint_shim(&self, to_print: &str);

    /// The call behind [`NS::clear_log`].
    fn clear_log_shim(&self);

    /// The call behind [`NS::disable_log`].
    fn disable_log_shim(&self, fun: &str) -> Result<(), BitburnerError>;

    /// The call behind [`NS::enable_log`].
    fn enable_log_shim(&self, fun: &str) -> Result<(), BitburnerError>;

    /// The call behind [`NS::tail`].
    fn tail_shim(&self, filename: &Option<FilenameOrPID>, host: Option<&str>, args: &Vec<Arg>) -> Result<
        (),
        BitburnerError,
    >;

    /// The call behind [`NS::scan`].
    fn scan_shim(&self, host: Option<&str>) -> Result<Vec<String>, BitburnerError>;

    /// The call behind [`NS::nuke`].
    fn nuke_shim(&self, host: &str) -> Result<(), BitburnerError>;

    /// The call behind [`NS::brute_ssh`].
    fn brutessh_shim(&self, host: &str) -> Result<(), BitburnerError>;

    /// The call behind [`NS::ftpcrack`].
    fn ftpcrack_shim(&self, host: &str) -> Result<(), BitburnerError>;

    /// Runs the `relaySMTP.exe` program on the server.
    fn relaysmtp_shim(&self, host: &str) -> Result<(), BitburnerError>;

    /// Runs the `HTTPWorm.exe` program on the server.
    fn httpworm_shim(&self, host: &str) -> Result<(), BitburnerError>;

    /// Runs the `SQLInject.exe` program on the server.
    fn sqlinject_shim(&self, host: &str) -> Result<(), BitburnerError>;

    /// The call behind [`NS::run`].
    fn run_shim(
        &self,
        script: &str,
        thread_or_options: &Option<ThreadOrOptions>,
        args: &Vec<Arg>,
    ) -> Result<u32, BitburnerError>;

    /// The call behind [`NS::kill`].
    fn kill_shim(&self, pid: u32) -> bool;

    /// The call behind [`NS::has_root_access`].
    fn has_root_access_shim(&self, host: &str) -> Result<bool, BitburnerError>;

    /// The call behind [`NS::get_hostname`].
    fn get_hostname_shim(&self) -> String;

    /// The call behind [`NS::get_hacking_level`].
    fn get_hacking_level_shim(&self) -> u32;

    /// The call behind [`NS::get_server`].
    fn get_server_shim(&self, host: Option<&str>) -> Result<Self::Server, BitburnerError>;

    /// The call behind [`NS::get_server_money_available`].
    fn get_server_money_available_shim(&self, host: &str) -> Result<F64Total, BitburnerError>;

    /// The call behind [`NS::get_server_max_money`].
    fn get_server_max_money_shim(&self, host: &str) -> Result<F64Total, BitburnerError>;

    /// The call behind [`NS::get_server_growth`].
    fn get_server_growth_shim(&self, host: &str) -> Result<F64Total, BitburnerError>;

    /// The call behind [`NS::get_server_security_level`].
    fn get_server_security_level_shim(&self, host: &str) -> Result<F64Total, BitburnerError>;

    /// The call behind [`NS::get_server_min_security_level`].
    fn get_server_min_security_level_shim(&self, host: &str) -> Result<F64Total, BitburnerError>;

    /// The call behind [`NS::get_server_base_security_level`].
    fn get_server_base_security_level_shim(&self, host: &str) -> Result<F64Total, BitburnerError>;

    /// The call behind [`NS::get_server_max_ram`].
    fn get_server_max_ram_shim(&self, host: &str) -> Result<Ram, BitburnerError>;

    /// The call behind [`NS::get_server_used_ram`].
    fn get_server_used_ram_shim(&self, host: &str) -> Result<Ram, BitburnerError>;

    /// The call behind [`NS::get_server_required_hacking_level`].
    fn get_server_required_hacking_level_shim(&self, host: &str) -> Result<u32, BitburnerError>;

    /// The call behind [`NS::get_server_num_ports_required`].
    fn get_server_num_ports_required_shim(&self, host: &str) -> Result<u32, BitburnerError>;

    /// The call behind [`NS::server_exists`].
    fn server_exists_shim(&self, host: &str) -> bool;

    /// The call behind [`NS::get_port_handle`].
    fn get_port_handle_shim(&self, port_number: u32) -> Result<Self::Port, BitburnerError>;

    /// The call behind [`NS::is_running`].
    fn is_running_shim(&self, script: &FilenameOrPID, host: Option<&str>, args: &Vec<Arg>) -> Result<
        bool,
        BitburnerError,
    >;

    /// The call behind [`NS::get_running_script`].
    fn get_running_script_shim(
        &self,
        filename: &Option<FilenameOrPID>,
        hostname: Option<&str>,
        args: &Vec<Arg>,
    ) -> Result<Option<RunningScript>, BitburnerError>;

    /// The call behind [`NS::get_hack_time`].
    fn get_hack_time_shim(&self, host: &str) -> Result<Millis, BitburnerError>;

    /// The call behind [`NS::get_grow_time`].
    fn get_grow_time_shim(&self, host: &str) -> Result<Millis, BitburnerError>;

    /// The call behind [`NS::get_weaken_time`].
    fn get_weaken_time_shim(&self, host: &str) -> Result<Millis, BitburnerError>;
}

/// The message that no server has the name `host`.
pub open spec fn server_missing_text(host: Seq<char>) -> Seq<char> {
    "Server "@ + host + " does not exist"@
}

/// The message that the script has no root access to `host`.
pub open spec fn no_root_access_text(host: Seq<char>) -> Seq<char> {
    "No root access to "@ + host
}

/// The message that more threads were asked for than the script has.
pub open spec fn not_enough_threads_text(requested: u32, own: u32) -> Seq<char> {
    "Not enough threads available: requested "@ + decimal_text(requested as nat)
        + ", script has access to "@ + decimal_text(own as nat)
}

/// Computes [`server_missing_text`].
pub fn server_missing(host: &str) -> (msg: String)
    ensures
        msg@ == server_missing_text(host@),
{
    let mut msg = "Server ".to_owned();
    msg.append(host);
    msg.append(" does not exist");
    msg
}

/// Computes [`no_root_access_text`].
pub fn no_root_access(host: &str) -> (msg: String)
    ensures
        msg@ == no_root_access_text(host@),
{
    let mut msg = "No root access to ".to_owned();
    msg.append(host);
    msg
}

/// Checks the threads asked for against those the script runs with:
/// asking for none in particular, or for no more than the script has,
/// is in order; asking for more fails with
/// [`not_enough_threads_text`].
pub fn check_threads(requested: Option<u32>, own_threads: u32) -> (checked: Result<(), String>)
    ensures
        match requested {
            Some(threads) => if threads > own_threads {
                checked matches Err(msg) && msg@ == not_enough_threads_text(threads, own_threads)
            } else {
                checked is Ok
            },
            None => checked is Ok,
        },
{
    match requested {
        Some(threads) => {
            if threads > own_threads {
                let mut msg = "Not enough threads available: requested ".to_owned();
                msg.append(decimal(threads as u64).as_str());
                msg.append(", script has access to ");
                msg.append(decimal(own_threads as u64).as_str());
                Err(msg)
            } else {
                Ok(())
            }
        },
        None => Ok(()),
    }
}

/// The threads that the options of a hack, grow or weaken ask for.
pub open spec fn requested_threads(opts: Option<BasicHGWOptions>) -> Option<u32> {
    match opts {
        Some(options) => options.threads,
        None => None,
    }
}

/// The host's functions as a script sees them.
pub struct NS<S: Shims> {
    shims: S,
}

impl<S: Shims> View for NS<S> {
    type V = S;

    /// The raw calls underneath.
    closed spec fn view(&self) -> S {
        self.shims
    }
}

impl<S: Shims> NS<S> {
    /// The interface over the given raw calls.
    pub fn new(shims: S) -> (ns: Self)
        ensures
            ns@ == shims,
    {
        NS { shims }
    }

    /// The raw calls underneath.
    pub fn shims(&self) -> (shims: &S)
        ensures
            *shims == self@,
    {
        &self.shims
    }

    /// Arguments passed into the script.
    pub fn args(&self) -> (answer: Vec<Arg>)
        ensures
            call_ensures(S::args_shim, (&self@,), answer),
    {
        self.shims.args_shim()
    }

    /// The current script's process id.
    pub fn pid(&self) -> (answer: u32)
        ensures
            call_ensures(S::pid_shim, (&self@,), answer),
    {
        self.shims.pid_shim()
    }

    /// Prints a message to the log as an error, and hands it back.
    fn reject(&self, msg: String) -> (rejected: Result<(), String>)
        ensures
            rejected == Err::<(), String>(msg),
    {
        let mut line = "ERROR ".to_owned();
        line.append(msg.as_str());
        self.print(line.as_str());
        Err(msg)
    }

    /// Whether the host gave `own` as its answer on the number of
    /// threads that the script itself runs with: the threads of the
    /// running script that it reported for the script's own arguments,
    /// none where it reported no script, or its error.
    pub open spec fn own_threads_answered(&self, own: Result<u32, BitburnerError>) -> bool {
        exists|args: Vec<Arg>, script: Result<Option<RunningScript>, BitburnerError>|
            {
                &&& #[trigger] call_ensures(S::args_shim, (&self@,), args)
                &&& #[trigger] call_ensures(
                    S::get_running_script_shim,
                    (&self@, &None::<FilenameOrPID>, None::<&str>, &args),
                    script,
                )
                &&& own == match script {
                    Ok(Some(running)) => Ok::<u32, BitburnerError>(running.threads),
                    Ok(None) => Ok::<u32, BitburnerError>(0),
                    Err(error) => Err::<u32, BitburnerError>(error),
                }
            }
    }

    /// Checks the arguments of a hack, grow or weaken before the call
    /// is made: the server has to exist, the script needs root access
    /// to it, and it cannot ask for more threads than it runs with.
    /// What fails is printed to the log and returned; an error of the
    /// host is returned as it is. The script's own threads are asked for
    /// only where the options name a number of threads, and count as
    /// none where the host does not report the script.
    pub fn check_hgw_args(&self, host: &str, opts: Option<BasicHGWOptions>) -> (checked: Result<
        (),
        String,
    >)
        ensures
            match checked {
                Ok(_) => {
                    &&& call_ensures(S::server_exists_shim, (&self@, host), true)
                    &&& call_ensures(
                        S::has_root_access_shim,
                        (&self@, host),
                        Ok::<bool, BitburnerError>(true),
                    )
                    &&& requested_threads(opts) matches Some(threads) ==> exists|own: u32| #[trigger]
                        self.own_threads_answered(Ok::<u32, BitburnerError>(own)) && threads <= own
                },
                Err(msg) => {
                    ||| {
                        &&& call_ensures(S::server_exists_shim, (&self@, host), false)
                        &&& msg@ == server_missing_text(host@)
                    }
                    ||| {
                        &&& call_ensures(
                            S::has_root_access_shim,
                            (&self@, host),
                            Ok::<bool, BitburnerError>(false),
                        )
                        &&& msg@ == no_root_access_text(host@)
                    }
                    ||| exists|error: BitburnerError| #[trigger]
                        call_ensures(
                            S::has_root_access_shim,
                            (&self@, host),
                            Err::<bool, BitburnerError>(error),
                        ) && msg@ == error@
                    ||| exists|own: u32| #[trigger]
                        self.own_threads_answered(Ok::<u32, BitburnerError>(own)) && (
                        requested_threads(opts) matches Some(threads) && threads > own && msg@
                            == not_enough_threads_text(threads, own))
                    ||| exists|error: BitburnerError| #[trigger]
                        self.own_threads_answered(Err::<u32, BitburnerError>(error)) && msg@
                            == error@
                },
            },
    {
        if !self.server_exists(host) {
            return self.reject(server_missing(host));
        }
        match self.has_root_access(host) {
            Ok(granted) => {
                if !granted {
                    return self.reject(no_root_access(host));
                }
            },
            Err(error) => {
                return Err(error.into_string());
            },
        }
        let requested = match opts {
            Some(options) => options.threads,
            None => None,
        };
        if requested.is_some() {
            let args = self.args();
            let script = self.get_running_script(None, None, args);
            let own_threads = match script {
                Ok(Some(own_script)) => own_script.threads,
                Ok(None) => 0,
                Err(error) => {
                    proof {
                        assert(self.own_threads_answered(Err::<u32, BitburnerError>(error)));
                    }
                    return Err(error.into_string());
                },
            };
            proof {
                assert(self.own_threads_answered(Ok::<u32, BitburnerError>(own_threads)));
            }
            match check_threads(requested, own_threads) {
                Ok(_) => {},
                Err(msg) => {
                    return self.reject(msg);
                },
            }
        }
        Ok(())
    }

    /// The security decrease that a weaken with this many threads would
    /// bring.
    pub fn weaken_analyze(&self, threads: u32, cores: Option<u32>) -> (answer: F64Total)
        ensures
            call_ensures(S::weaken_analyze_shim, (&self@, threads, cores), answer),
    {
        self.shims.weaken_analyze_shim(threads, cores)
    }

    /// The part of a server's money that one hack thread steals.
    pub fn hack_analyze(&self, host: &str) -> (answer: Result<F64Total, BitburnerError>)
        ensures
            call_ensures(S::hack_analyze_shim, (&self@, host), answer),
    {
        self.shims.hack_analyze_shim(host)
    }

    /// The security increase that a hack with this many threads brings.
    pub fn hack_analyze_security(&self, threads: u32, hostname: Option<&str>) -> (answer: Result<F64Total, BitburnerError>)
        ensures
            call_ensures(S::hack_analyze_security_shim, (&self@, threads, hostname), answer),
    {
        self.shims.hack_analyze_security_shim(threads, hostname)
    }

    /// The chance that a hack of the server succeeds.
    pub fn hack_analyze_chance(&self, host: &str) -> (answer: Result<F64Total, BitburnerError>)
        ensures
            call_ensures(S::hack_analyze_chance_shim, (&self@, host), answer),
    {
        self.shims.hack_analyze_chance_shim(host)
    }

    /// The number of grow threads needed to multiply a server's money.
    pub fn growth_analyze(&self, host: &str, multiplier: F64Total, cores: Option<u32>) -> (answer: Result<F64Total, BitburnerError>)
        ensures
            call_ensures(S::growth_analyze_shim, (&self@, host, multiplier, cores), answer),
    {
        self.shims.growth_analyze_shim(host, multiplier, cores)
    }

    /// The security increase that a grow with this many threads brings.
    pub fn growth_analyze_security(&self, threads: u32, hostname: Option<&str>, cores: Option<u32>) -> (answer: Result<F64Total, BitburnerError>)
        ensures
            call_ensures(S::growth_analyze_security_shim, (&self@, threads, hostname, cores), answer),
    {
        self.shims.growth_analyze_security_shim(threads, hostname, cores)
    }

    /// Prints to the script's log.
    pub fn print(&self, to_print: &str)
        ensures
            call_ensures(S::print_shim, (&self@, to_print), ()),
    {
        self.shims.print_shim(to_print)
    }

    /// Prints to the terminal.
    pub fn tprint(&self, to_print: &str)
        ensures
            call_ensures(S::tprint_shim, (&self@, to_print), ()),
    {
        self.shims.tprint_shim(to_print)
    }

    /// Clears the script's log.
    pub fn clear_log(&self)
        ensures
            call_ensures(S::clear_log_shim, (&self@,), ()),
    {
        self.shims.clear_log_shim()
    }

    /// Stops the logging of a function, or of all with `"ALL"`.
    pub fn disable_log(&self, fun: &str) -> (answer: Result<(), BitburnerError>)
        ensures
            call_ensures(S::disable_log_shim, (&self@, fun), answer),
    {
        self.shims.disable_log_shim(fun)
    }

    /// Resumes the logging of a function, or of all with `"ALL"`.
    pub fn enable_log(&self, fun: &str) -> (answer: Result<(), BitburnerError>)
        ensures
            call_ensures(S::enable_log_shim, (&self@, fun), answer),
    {
        self.shims.enable_log_shim(fun)
    }

    /// Opens the log window of a script.
    pub fn tail(&self, filename: Option<FilenameOrPID>, hostname: Option<&str>, args: Vec<Arg>) -> (answer: Result<(), BitburnerError>)
        ensures
            call_ensures(S::tail_shim, (&self@, &filename, hostname, &args), answer),
    {
        self.shims.tail_shim(&filename, hostname, &args)
    }

    /// The names of the servers one hop away from `host`.
    pub fn scan(&self, host: Option<&str>) -> (answer: Result<Vec<String>, BitburnerError>)
        ensures
            call_ensures(S::scan_shim, (&self@, host), answer),
    {
        self.shims.scan_shim(host)
    }

    /// Runs the `NUKE.exe` program on the server.
    pub fn nuke(&self, host: &str) -> (answer: Result<(), BitburnerError>)
        ensures
            call_ensures(S::nuke_shim, (&self@, host), answer),
    {
        self.shims.nuke_shim(host)
    }

    /// Runs the `BruteSSH.exe` program on the server.
    pub fn brute_ssh(&self, host: &str) -> (answer: Result<(), BitburnerError>)
        ensures
            call_ensures(S::brutessh_shim, (&self@, host), answer),
    {
        self.shims.brutessh_shim(host)
    }

    /// Runs the `FTPCrack.exe` program on the server.
    pub fn ftpcrack(&self, host: &str) -> (answer: Result<(), BitburnerError>)
        ensures
            call_ensures(S::ftpcrack_shim, (&self@, host), answer),
    {
        self.shims.ftpcrack_shim(host)
    }

    /// Starts a script on the current server. The host answers with the
    /// process id of the new script, or with 0 where the launch failed.
    pub fn run(&self, script: &str, thread_or_options: Option<ThreadOrOptions>, args: &Vec<Arg>) -> (answer: Result<u32, BitburnerError>)
        ensures
            call_ensures(S::run_shim, (&self@, script, &thread_or_options, args), answer),
    {
        self.shims.run_shim(script, &thread_or_options, args)
    }

    /// Ends the script with the given process id. The host answers
    /// whether it did.
    pub fn kill(&self, pid: u32) -> (answer: bool)
        ensures
            call_ensures(S::kill_shim, (&self@, pid), answer),
    {
        self.shims.kill_shim(pid)
    }

    /// Whether the script has root access to the server.
    pub fn has_root_access(&self, host: &str) -> (answer: Result<bool, BitburnerError>)
        ensures
            call_ensures(S::has_root_access_shim, (&self@, host), answer),
    {
        self.shims.has_root_access_shim(host)
    }

    /// The name of the server the script runs on.
    pub fn get_hostname(&self) -> (answer: String)
        ensures
            call_ensures(S::get_hostname_shim, (&self@,), answer),
    {
        self.shims.get_hostname_shim()
    }

    /// The player's hacking level.
    pub fn get_hacking_level(&self) -> (answer: u32)
        ensures
            call_ensures(S::get_hacking_level_shim, (&self@,), answer),
    {
        self.shims.get_hacking_level_shim()
    }

    /// The host's record of a server; of the current one with `None`.
    pub fn get_server(&self, host: Option<&str>) -> (answer: Result<S::Server, BitburnerError>)
        ensures
            call_ensures(S::get_server_shim, (&self@, host), answer),
    {
        self.shims.get_server_shim(host)
    }

    /// The money available on a server.
    pub fn get_server_money_available(&self, host: &str) -> (answer: Result<F64Total, BitburnerError>)
        ensures
            call_ensures(S::get_server_money_available_shim, (&self@, host), answer),
    {
        self.shims.get_server_money_available_shim(host)
    }

    /// The most money a server can hold.
    pub fn get_server_max_money(&self, host: &str) -> (answer: Result<F64Total, BitburnerError>)
        ensures
            call_ensures(S::get_server_max_money_shim, (&self@, host), answer),
    {
        self.shims.get_server_max_money_shim(host)
    }

    /// The growth parameter of a server.
    pub fn get_server_growth(&self, host: &str) -> (answer: Result<F64Total, BitburnerError>)
        ensures
            call_ensures(S::get_server_growth_shim, (&self@, host), answer),
    {
        self.shims.get_server_growth_shim(host)
    }

    /// The security level of a server.
    pub fn get_server_security_level(&self, host: &str) -> (answer: Result<F64Total, BitburnerError>)
        ensures
            call_ensures(S::get_server_security_level_shim, (&self@, host), answer),
    {
        self.shims.get_server_security_level_shim(host)
    }

    /// The lowest security level a server can have.
    pub fn get_server_min_security_level(&self, host: &str) -> (answer: Result<F64Total, BitburnerError>)
        ensures
            call_ensures(S::get_server_min_security_level_shim, (&self@, host), answer),
    {
        self.shims.get_server_min_security_level_shim(host)
    }

    /// The security level a server starts with.
    pub fn get_server_base_security_level(&self, host: &str) -> (answer: Result<F64Total, BitburnerError>)
        ensures
            call_ensures(S::get_server_base_security_level_shim, (&self@, host), answer),
    {
        self.shims.get_server_base_security_level_shim(host)
    }

    /// The RAM a server has.
    pub fn get_server_max_ram(&self, host: &str) -> (answer: Result<Ram, BitburnerError>)
        ensures
            call_ensures(S::get_server_max_ram_shim, (&self@, host), answer),
    {
        self.shims.get_server_max_ram_shim(host)
    }

    /// The RAM in use on a server.
    pub fn get_server_used_ram(&self, host: &str) -> (answer: Result<Ram, BitburnerError>)
        ensures
            call_ensures(S::get_server_used_ram_shim, (&self@, host), answer),
    {
        self.shims.get_server_used_ram_shim(host)
    }

    /// The hacking level needed to hack a server.
    pub fn get_server_required_hacking_level(&self, host: &str) -> (answer: Result<u32, BitburnerError>)
        ensures
            call_ensures(S::get_server_required_hacking_level_shim, (&self@, host), answer),
    {
        self.shims.get_server_required_hacking_level_shim(host)
    }

    /// The number of open ports needed to nuke a server.
    pub fn get_server_num_ports_required(&self, host: &str) -> (answer: Result<u32, BitburnerError>)
        ensures
            call_ensures(S::get_server_num_ports_required_shim, (&self@, host), answer),
    {
        self.shims.get_server_num_ports_required_shim(host)
    }

    /// Whether a server of that name exists.
    pub fn server_exists(&self, host: &str) -> (answer: bool)
        ensures
            call_ensures(S::server_exists_shim, (&self@, host), answer),
    {
        self.shims.server_exists_shim(host)
    }

    /// The handle of the port with that number.
    pub fn get_port_handle(&self, port_number: u32) -> (answer: Result<S::Port, BitburnerError>)
        ensures
            call_ensures(S::get_port_handle_shim, (&self@, port_number), answer),
    {
        self.shims.get_port_handle_shim(port_number)
    }

    /// Whether the script named is running.
    pub fn is_running(&self, script: FilenameOrPID, host: Option<&str>, args: &Vec<Arg>) -> (answer: Result<bool, BitburnerError>)
        ensures
            call_ensures(S::is_running_shim, (&self@, &script, host, args), answer),
    {
        self.shims.is_running_shim(&script, host, args)
    }

    /// The host's report of a running script; of the current one with
    /// no file name.
    pub fn get_running_script(&self, filename: Option<FilenameOrPID>, hostname: Option<&str>, args: Vec<Arg>) -> (answer: Result<Option<RunningScript>, BitburnerError>)
        ensures
            call_ensures(S::get_running_script_shim, (&self@, &filename, hostname, &args), answer),
    {
        self.shims.get_running_script_shim(&filename, hostname, &args)
    }

    /// The time a hack of the server takes.
    pub fn get_hack_time(&self, host: &str) -> (answer: Result<Millis, BitburnerError>)
        ensures
            call_ensures(S::get_hack_time_shim, (&self@, host), answer),
    {
        self.shims.get_hack_time_shim(host)
    }

    /// The time a grow of the server takes.
    pub fn get_grow_time(&self, host: &str) -> (answer: Result<Millis, BitburnerError>)
        ensures
            call_ensures(S::get_grow_time_shim, (&self@, host), answer),
    {
        self.shims.get_grow_time_shim(host)
    }

    /// The time a weaken of the server takes.
    pub fn get_weaken_time(&self, host: &str) -> (answer: Result<Millis, BitburnerError>)
        ensures
            call_ensures(S::get_weaken_time_shim, (&self@, host), answer),
    {
        self.shims.get_weaken_time_shim(host)
    }
}

} // verus!
