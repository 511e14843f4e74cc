//! The values that cross to the host as arguments.

use crate::f64_total::F64Total;
use vstd::prelude::*;

verus! {

/// An argument passed to a script: a flag, a number or a text.
#[derive(Debug, Clone, PartialEq)]
pub enum Arg {
    Bool(bool),
    F64(F64Total),
    String(String),
}

/// Names a script by its process id or by its file name.
#[derive(Debug, Clone, PartialEq)]
pub enum FilenameOrPID {
    Pid(u32),
    Name(String),
}

/// Data sent through a port: a number or a text.
#[derive(Debug, Clone, PartialEq)]
pub enum PortData {
    Number(F64Total),
    String(String),
}

/// Options of the hack, grow and weaken calls. These three keys are
/// all that the host takes.
#[derive(Debug, Clone, Copy, PartialEq)]
pub struct BasicHGWOptions {
    /// Number of threads to use; at most the number the script runs with.
    pub threads: Option<u32>,
    /// Whether the action affects the stock market.
    pub stock: Option<bool>,
    /// Milliseconds to wait on top of the action's own time.
    pub additional_msec: Option<F64Total>,
}

/// Options for launching a script. These four keys are all that the
/// host takes.
#[derive(Debug, Clone, Copy, PartialEq)]
pub struct RunOptions {
    /// Number of threads the script runs with; 1 where absent.
    pub threads: Option<u32>,
    /// Whether the script is left out of saves.
    pub temporary: Option<bool>,
    /// RAM per thread to launch with, in place of the computed cost.
    pub ram_override: Option<F64Total>,
    /// Whether the launch fails if the same script already runs with
    /// the same arguments.
    pub prevent_duplicates: Option<bool>,
}

/// A launch is given either a thread count or a full set of options.
#[derive(Debug, Clone, Copy, PartialEq)]
pub enum ThreadOrOptions {
    Threads(u32),
    Options(RunOptions),
}

/// The number of threads a launch with these settings runs with: the
/// count given, or 1 where none is.
pub open spec fn thread_count(thread_or_options: Option<ThreadOrOptions>) -> u32 {
    match thread_or_options {
        Some(ThreadOrOptions::Threads(threads)) => threads,
        Some(ThreadOrOptions::Options(options)) => match options.threads {
            Some(threads) => threads,
            None => 1,
        },
        None => 1,
    }
}

impl ThreadOrOptions {
    /// Computes [`thread_count`].
    pub fn threads(thread_or_options: &Option<ThreadOrOptions>) -> (count: u32)
        ensures
            count == thread_count(*thread_or_options),
    {
        match thread_or_options {
            Some(ThreadOrOptions::Threads(threads)) => *threads,
            Some(ThreadOrOptions::Options(options)) => match options.threads {
                Some(threads) => threads,
                None => 1,
            },
            None => 1,
        }
    }

    /// A launch with `threads` threads and no other option.
    pub fn from_threads(threads: u32) -> (made: Self)
        ensures
            made == ThreadOrOptions::Threads(threads),
    {
        ThreadOrOptions::Threads(threads)
    }

    /// A launch with the given options.
    pub fn from_options(options: RunOptions) -> (made: Self)
        ensures
            made == ThreadOrOptions::Options(options),
    {
        ThreadOrOptions::Options(options)
    }
}

impl FilenameOrPID {
    /// Names a script by its process id.
    pub fn from_pid(pid: u32) -> (made: Self)
        ensures
            made == FilenameOrPID::Pid(pid),
    {
        FilenameOrPID::Pid(pid)
    }

    /// Names a script by its file name.
    pub fn from_name(name: &str) -> (made: Self)
        ensures
            made matches FilenameOrPID::Name(n) && n@ == name@,
    {
        FilenameOrPID::Name(name.to_owned())
    }
}

/// The argument that a value of the host stands for, given what the
/// value is as a flag, as a number and as a text: the first of the
/// three that it is, or none where it is neither.
pub open spec fn arg_of(
    as_bool: Option<bool>,
    as_f64: Option<F64Total>,
    as_string: Option<String>,
) -> Option<Arg> {
    match (as_bool, as_f64, as_string) {
        (Some(flag), _, _) => Some(Arg::Bool(flag)),
        (None, Some(number), _) => Some(Arg::F64(number)),
        (None, None, Some(text)) => Some(Arg::String(text)),
        (None, None, None) => None,
    }
}

/// The port data that a value of the host stands for, given what the
/// value is as a number and as a text: a number if it is one, else a
/// text if it is one, else none.
pub open spec fn port_data_of(as_f64: Option<F64Total>, as_string: Option<String>) -> Option<
    PortData,
> {
    match (as_f64, as_string) {
        (Some(number), _) => Some(PortData::Number(number)),
        (None, Some(text)) => Some(PortData::String(text)),
        (None, None) => None,
    }
}

impl PortData {
    /// Computes [`port_data_of`].
    pub fn from_value(as_f64: Option<F64Total>, as_string: Option<String>) -> (data: Option<
        PortData,
    >)
        ensures
            data == port_data_of(as_f64, as_string),
    {
        match as_f64 {
            Some(number) => Some(PortData::Number(number)),
            None => match as_string {
                Some(text) => Some(PortData::String(text)),
                None => None,
            },
        }
    }
}

impl Arg {
    /// Computes [`arg_of`].
    pub fn from_value(
        as_bool: Option<bool>,
        as_f64: Option<F64Total>,
        as_string: Option<String>,
    ) -> (arg: Option<Arg>)
        ensures
            arg == arg_of(as_bool, as_f64, as_string),
    {
        match as_bool {
            Some(flag) => Some(Arg::Bool(flag)),
            None => match as_f64 {
                Some(number) => Some(Arg::F64(number)),
                None => match as_string {
                    Some(text) => Some(Arg::String(text)),
                    None => None,
                },
            },
        }
    }

    /// A text argument.
    pub fn from_str(text: &str) -> (made: Self)
        ensures
            made matches Arg::String(s) && s@ == text@,
    {
        Arg::String(text.to_owned())
    }
}

} // verus!
