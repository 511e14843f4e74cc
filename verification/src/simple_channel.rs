//! An unbounded first-in, first-out queue for one thread.
//!
//! The buffer lives in the [`Receiver`]. A [`Sender`] is a cheap handle
//! that may be cloned freely; to send, it is lent the receiver for the
//! length of the call, which is how one thread's exclusive access to the
//! queue is written down. An iterator is lent the receiver in the same
//! way for each item it takes.

use core::marker::PhantomData;
use std::collections::VecDeque;
use vstd::prelude::*;

pub mod error;

pub use error::RecvError;
pub use error::SendError;

verus! {

/// The sending side of a channel.
#[derive(Debug)]
pub struct Sender<T> {
    tx: PhantomData<T>,
}

impl<T> Clone for Sender<T> {
    /// Another handle for the same sending side.
    fn clone(&self) -> (other: Self) {
        Sender { tx: PhantomData }
    }
}

/// The receiving side of a channel, which owns the queued items.
#[derive(Debug)]
pub struct Receiver<T> {
    rx: VecDeque<T>,
}

/// An iterator over the items of a queue that never waits: each call of
/// [`next`](TryIter::next) takes the oldest item off the queue it is
/// lent, so what is not asked for stays queued.
pub struct TryIter<T> {
    rx: PhantomData<T>,
}

impl<T> View for Receiver<T> {
    type V = Seq<T>;

    /// The queued items, oldest first.
    closed spec fn view(&self) -> Seq<T> {
        self.rx@
    }
}

/// Creates a channel with nothing queued.
pub fn channel<T>() -> (ends: (Sender<T>, Receiver<T>))
    ensures
        ends.1@ == Seq::<T>::empty(),
{
    (Sender { tx: PhantomData }, Receiver { rx: VecDeque::new() })
}

impl<T> Sender<T> {
    /// Appends `t` to the queue of `rx`. Never blocks and never fails.
    pub fn send(&self, rx: &mut Receiver<T>, t: T) -> (sent: Result<(), SendError<T>>)
        ensures
            sent is Ok,
            final(rx)@ == old(rx)@.push(t),
    {
        rx.rx.push_back(t);
        Ok(())
    }
}

impl<T> Receiver<T> {
    /// The number of queued items.
    pub fn len(&self) -> (n: usize)
        ensures
            n == self@.len(),
    {
        self.rx.len()
    }

    /// Takes the oldest item off the queue, or reports that it is empty.
    pub fn recv(&mut self) -> (got: Result<T, RecvError>)
        ensures
            match got {
                Ok(t) => old(self)@.len() > 0 && t == old(self)@[0] && final(self)@ == old(
                    self,
                )@.drop_first(),
                Err(e) => e == RecvError::Empty && old(self)@.len() == 0 && final(self)@ == old(
                    self,
                )@,
            },
    {
        match self.rx.pop_front() {
            Some(v) => {
                assert(old(self)@.subrange(1, old(self)@.len() as int) == old(self)@.drop_first());
                Ok(v)
            },
            None => Err(RecvError::Empty),
        }
    }

    /// Same as [`recv`](Receiver::recv): a receive never waits.
    pub fn try_recv(&mut self) -> (got: Result<T, RecvError>)
        ensures
            match got {
                Ok(t) => old(self)@.len() > 0 && t == old(self)@[0] && final(self)@ == old(
                    self,
                )@.drop_first(),
                Err(e) => e == RecvError::Empty && old(self)@.len() == 0 && final(self)@ == old(
                    self,
                )@,
            },
    {
        self.recv()
    }

    /// An iterator over the queued items. Making it takes nothing off
    /// the queue.
    pub fn try_iter(&self) -> (items: TryIter<T>) {
        TryIter { rx: PhantomData }
    }
}

impl<T> TryIter<T> {
    /// The oldest item of the queue `rx`, which leaves the queue, or
    /// `None` where the queue is empty.
    pub fn next(&mut self, rx: &mut Receiver<T>) -> (item: Option<T>)
        ensures
            match item {
                Some(t) => old(rx)@.len() > 0 && t == old(rx)@[0] && final(rx)@ == old(
                    rx,
                )@.drop_first(),
                None => old(rx)@.len() == 0 && final(rx)@ == old(rx)@,
            },
    {
        match rx.recv() {
            Ok(item) => Some(item),
            Err(_) => None,
        }
    }
}

} // verus!
