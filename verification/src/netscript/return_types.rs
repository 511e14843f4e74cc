//! What the host hands back when a call fails.

use vstd::prelude::*;

verus! {

/// A runtime error raised by the host, with the host's message.
#[derive(Debug, Clone, PartialEq, Eq)]
pub struct BitburnerError {
    msg: String,
}

impl View for BitburnerError {
    type V = Seq<char>;

    /// The message.
    closed spec fn view(&self) -> Seq<char> {
        self.msg@
    }
}

impl BitburnerError {
    /// An error with the given message.
    pub fn new(msg: &str) -> (error: Self)
        ensures
            error@ == msg@,
    {
        BitburnerError { msg: msg.to_owned() }
    }

    /// An error that takes over an owned message.
    pub fn from_string(msg: String) -> (error: Self)
        ensures
            error@ == msg@,
    {
        BitburnerError { msg }
    }

    /// The message, given up by the error.
    pub fn into_string(self) -> (msg: String)
        ensures
            msg@ == self@,
    {
        self.msg
    }

    /// A copy of the message.
    pub fn message(&self) -> (msg: String)
        ensures
            msg@ == self@,
    {
        self.msg.clone()
    }
}

} // verus!
