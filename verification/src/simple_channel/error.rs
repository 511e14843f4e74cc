//! Errors of the single-threaded channel.

use vstd::prelude::*;

verus! {

/// The value that could not be sent, handed back to the caller.
///
/// A [`Sender`](super::Sender) reaches the queue through the exclusive
/// borrow it is lent, so no send ever comes back with this error; the
/// type is what the `Result` of a send is written over.
#[derive(Debug, Clone, Copy, PartialEq, Eq)]
pub struct SendError<T>(pub T);

impl<T> SendError<T> {
    /// The message shown for a failed send.
    pub fn message(&self) -> (text: String)
        ensures
            text@ == "failed to borrow for sending"@,
    {
        "failed to borrow for sending".to_owned()
    }
}

/// Why a receive returned no item.
#[derive(Clone, Copy, Debug, PartialEq, Eq)]
pub enum RecvError {
    /// The queue holds no item.
    Empty,
    /// The queue was in use by someone else. The borrow rules exclude it
    /// wherever the receiver is borrowed exclusively.
    FailedToBorrow,
}

impl RecvError {
    /// The message shown for this error.
    pub fn message(&self) -> (text: String)
        ensures
            self is Empty ==> text@ == "receiving from an empty queue"@,
            self is FailedToBorrow ==> text@ == "failed to borrow the queue"@,
    {
        match self {
            RecvError::Empty => "receiving from an empty queue".to_owned(),
            RecvError::FailedToBorrow => "failed to borrow the queue".to_owned(),
        }
    }
}

} // verus!
