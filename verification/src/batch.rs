//! Thread counts for a batch of hack, grow and the weakens that undo
//! what the two do to the security level.

use crate::thread_search::is_weaken_thread_count;
use crate::thread_search::weaken_analyze_threads;
use vstd::prelude::*;

verus! {

/// The threads of the four jobs of a batch.
#[derive(Debug, Clone, Copy, PartialEq, Eq, Structural)]
pub struct BatchThreads {
    pub hack: u32,
    pub hack_weaken: u32,
    pub grow: u32,
    pub grow_weaken: u32,
}

/// Completes the thread counts of a batch from those of its hack and
/// its grow.
///
/// `undoes_hack` says of a number of weaken threads whether they take
/// back the security that the hack adds, `undoes_grow` the same of the
/// grow. Each weaken gets the count that
/// [`weaken_analyze_threads`] finds with its predicate.
pub fn calculate_batch_threads<H: Fn(u32) -> bool, G: Fn(u32) -> bool>(
    hack_threads: u32,
    grow_threads: u32,
    undoes_hack: &H,
    undoes_grow: &G,
) -> (batch: BatchThreads)
    requires
        forall|t: u32| undoes_hack.requires((t,)),
        forall|t: u32| undoes_grow.requires((t,)),
    ensures
        batch.hack == hack_threads,
        batch.grow == grow_threads,
        is_weaken_thread_count(*undoes_hack, batch.hack_weaken),
        is_weaken_thread_count(*undoes_grow, batch.grow_weaken),
{
    let hack_weaken_threads = weaken_analyze_threads(undoes_hack);
    let grow_weaken_threads = weaken_analyze_threads(undoes_grow);
    BatchThreads {
        hack: hack_threads,
        hack_weaken: hack_weaken_threads,
        grow: grow_threads,
        grow_weaken: grow_weaken_threads,
    }
}

} // verus!
