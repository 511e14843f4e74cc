//! Searches for the number of threads that a job needs.
//!
//! What a number of threads achieves is for the host to say, in
//! numbers this library does not compute with. So each search is given
//! a predicate that answers whether a count is enough, and finds the
//! boundary where the answer turns.

use crate::f64_total::F64Total;
use crate::netscript::BitburnerError;
use crate::netscript::Shims;
use crate::netscript::NS;
use vstd::arithmetic::power2::lemma2_to64;
use vstd::arithmetic::power2::lemma_pow2_strictly_increases;
use vstd::arithmetic::power2::lemma_pow2_unfold;
use vstd::arithmetic::power2::pow2;
use vstd::prelude::*;

verus! {

/// The most threads that the search for a weaken considers.
pub const MAX_SEARCH_THREADS: u32 = 0x8000_0000;

/// What [`binary_search`] promises of `found`, over the answers that
/// `pred` is able to give.
///
/// The result lies between the bounds. `pred` said yes to it unless it
/// is the right bound, which is taken to hold and is never put to
/// `pred`; and `pred` said no to the count just below it unless it is
/// the left bound.
pub open spec fn is_boundary<P: Fn(u32) -> bool>(
    pred: P,
    left_bound: u32,
    right_bound: u32,
    found: u32,
) -> bool {
    &&& left_bound <= found <= right_bound
    &&& found < right_bound ==> pred.ensures((found,), true)
    &&& found > left_bound ==> pred.ensures(((found - 1) as u32,), false)
}

/// Finds the first argument of a monotonic predicate for which it is
/// true, from a left bound up to a right bound for which it is taken to
/// be true.
pub fn binary_search<P: Fn(u32) -> bool>(pred: &P, left_bound: u32, right_bound: u32) -> (found: u32)
    requires
        left_bound <= right_bound,
        forall|t: u32| left_bound <= t < right_bound ==> pred.requires((t,)),
    ensures
        is_boundary(*pred, left_bound, right_bound, found),
{
    if left_bound == right_bound {
        return right_bound;
    }
    if pred(left_bound) {
        return left_bound;
    }
    let mut left: u32 = left_bound;
    let mut right: u32 = right_bound;
    loop
        invariant
            left_bound <= left < right <= right_bound,
            pred.ensures((left,), false),
            right == right_bound || pred.ensures((right,), true),
            forall|t: u32| left_bound <= t < right_bound ==> pred.requires((t,)),
        decreases right - left,
    {
        let split: u32 = left + (right - left) / 2;
        let done = split == left;
        if done {
            return right;
        }
        if !pred(split) {
            left = split;
        } else {
            right = split;
        }
    }
}

/// With a predicate that answers as `holds` does and that holds at the
/// right bound, the search returns an argument for which the predicate
/// holds, and that is the left bound or has the predicate fail just
/// before it.
pub proof fn lemma_binary_search_turning_point<P: Fn(u32) -> bool>(
    pred: P,
    holds: spec_fn(u32) -> bool,
    left_bound: u32,
    right_bound: u32,
    found: u32,
)
    requires
        is_boundary(pred, left_bound, right_bound, found),
        forall|t: u32, answer: bool| #[trigger] pred.ensures((t,), answer) ==> answer == holds(t),
        holds(right_bound),
    ensures
        holds(found),
        found == left_bound || !holds((found - 1) as u32),
{
}

/// With a monotonic predicate, the argument returned is the first from
/// the left bound on for which the predicate holds, or the right bound
/// where it holds for none below.
pub proof fn lemma_binary_search_first<P: Fn(u32) -> bool>(
    pred: P,
    holds: spec_fn(u32) -> bool,
    left_bound: u32,
    right_bound: u32,
    found: u32,
)
    requires
        is_boundary(pred, left_bound, right_bound, found),
        forall|t: u32, answer: bool| #[trigger] pred.ensures((t,), answer) ==> answer == holds(t),
        forall|a: u32, b: u32| a <= b && #[trigger] holds(a) ==> #[trigger] holds(b),
    ensures
        forall|t: u32| left_bound <= t < found ==> !#[trigger] holds(t),
        found < right_bound ==> holds(found),
{
    assert forall|t: u32| left_bound <= t < found implies !#[trigger] holds(t) by {
        if holds(t) {
            assert(holds((found - 1) as u32));
        }
    }
}

/// Splits `threads` between a job of high priority and one of low:
/// finds the smallest share of the first, above none, with which
/// `satisfied` holds, given the share and what is left for the second.
/// Returns all of `threads` where it holds for no smaller share.
pub fn split_thread_solve<P: Fn(u32, u32) -> bool>(threads: u32, satisfied: &P) -> (high_prio_threads:
    u32)
    requires
        forall|high: u32, low: u32| satisfied.requires((high, low)),
    ensures
        threads == 0 ==> high_prio_threads == 0,
        threads > 0 ==> {
            &&& 0 < high_prio_threads <= threads
            &&& high_prio_threads == threads || satisfied.ensures(
                (high_prio_threads, (threads - high_prio_threads) as u32),
                true,
            )
            &&& high_prio_threads == 1 || satisfied.ensures(
                ((high_prio_threads - 1) as u32, (threads - high_prio_threads + 1) as u32),
                false,
            )
        },
{
    let pred = |high_prio_threads: u32| -> (enough: bool)
        requires
            high_prio_threads <= threads,
        ensures
            satisfied.ensures((high_prio_threads, (threads - high_prio_threads) as u32), enough),
        { satisfied(high_prio_threads, threads - high_prio_threads) };
    if threads == 0 {
        return 0;
    }
    binary_search(&pred, 1, threads)
}

/// What [`weaken_analyze_threads`] promises of `threads`, over the
/// answers that `enough` is able to give: the count is at least 1 and at
/// most [`MAX_SEARCH_THREADS`]; `enough` said yes to it, unless it is
/// that most; and `enough` said no to the count just below it, unless
/// that is none.
pub open spec fn is_weaken_thread_count<E: Fn(u32) -> bool>(enough: E, threads: u32) -> bool {
    &&& 1 <= threads <= MAX_SEARCH_THREADS
    &&& threads == MAX_SEARCH_THREADS || enough.ensures((threads,), true)
    &&& threads == 1 || enough.ensures(((threads - 1) as u32,), false)
}

/// The number of weaken threads that is enough, where `enough` says
/// of a number whether it is: the first above none for which it says
/// yes, if it is monotonic.
///
/// The search doubles a count from 1 until it is enough, and then
/// looks for the boundary below that count. It gives up doubling at
/// [`MAX_SEARCH_THREADS`], which it returns if even that were not enough.
pub fn weaken_analyze_threads<E: Fn(u32) -> bool>(enough: &E) -> (threads: u32)
    requires
        forall|t: u32| enough.requires((t,)),
    ensures
        is_weaken_thread_count(*enough, threads),
{
    let mut max_weaken_threads: u32 = 1;
    let mut reached = enough(max_weaken_threads);
    let ghost mut doublings: nat = 0;
    proof {
        lemma2_to64();
    }
    while !reached && max_weaken_threads < MAX_SEARCH_THREADS
        invariant
            doublings <= 31,
            max_weaken_threads == pow2(doublings),
            1 <= max_weaken_threads <= MAX_SEARCH_THREADS,
            enough.ensures((max_weaken_threads,), reached),
            forall|t: u32| enough.requires((t,)),
        decreases MAX_SEARCH_THREADS - max_weaken_threads,
    {
        proof {
            lemma2_to64();
            if doublings >= 31 {
                assert(pow2(doublings) == pow2(31));
            }
            lemma_pow2_unfold(doublings + 1);
            if doublings + 1 < 31 {
                lemma_pow2_strictly_increases(doublings + 1, 31);
            }
            doublings = doublings + 1;
        }
        max_weaken_threads = max_weaken_threads * 2;
        reached = enough(max_weaken_threads);
    }
    let pred = |t: u32| -> (answer: bool)
        ensures
            enough.ensures((t,), answer),
        { enough(t) };
    binary_search(&pred, 1, max_weaken_threads)
}

/// The number of threads for a full weaken, given the server's lowest
/// and current security levels: none where the server is at its lowest
/// level already, in the total order of the levels, and what
/// [`weaken_analyze_threads`] finds otherwise.
pub fn threads_for_full_weaken<E: Fn(u32) -> bool>(
    min_security: F64Total,
    cur_security: F64Total,
    enough: &E,
) -> (threads: u32)
    requires
        forall|t: u32| enough.requires((t,)),
    ensures
        cur_security.key() <= min_security.key() ==> threads == 0,
        cur_security.key() > min_security.key() ==> is_weaken_thread_count(*enough, threads),
{
    if cur_security.total_le(&min_security) {
        return 0;
    }
    weaken_analyze_threads(enough)
}

/// The number of threads with which a weaken brings `host` down to its
/// lowest security level.
///
/// The host is asked for the lowest level and then for the current one;
/// `enough` says of a number of threads whether a weaken with as many
/// makes up the difference. The number is what
/// [`threads_for_full_weaken`] makes of the two levels. An error of the
/// host is returned as it is.
pub fn get_threads_for_full_weaken<S: Shims, E: Fn(u32) -> bool>(
    ns: &NS<S>,
    host: &str,
    enough: &E,
) -> (threads: Result<u32, BitburnerError>)
    requires
        forall|t: u32| enough.requires((t,)),
    ensures
        match threads {
            Ok(n) => exists|min_security: F64Total, cur_security: F64Total|
                {
                    &&& #[trigger] call_ensures(
                        S::get_server_min_security_level_shim,
                        (&ns@, host),
                        Ok::<F64Total, BitburnerError>(min_security),
                    )
                    &&& #[trigger] call_ensures(
                        S::get_server_security_level_shim,
                        (&ns@, host),
                        Ok::<F64Total, BitburnerError>(cur_security),
                    )
                    &&& cur_security.key() <= min_security.key() ==> n == 0
                    &&& cur_security.key() > min_security.key() ==> is_weaken_thread_count(
                        *enough,
                        n,
                    )
                },
            Err(error) => {
                ||| call_ensures(
                    S::get_server_min_security_level_shim,
                    (&ns@, host),
                    Err::<F64Total, BitburnerError>(error),
                )
                ||| call_ensures(
                    S::get_server_security_level_shim,
                    (&ns@, host),
                    Err::<F64Total, BitburnerError>(error),
                )
            },
        },
{
    let min_security = match ns.get_server_min_security_level(host) {
        Ok(level) => level,
        Err(error) => {
            return Err(error);
        },
    };
    let cur_security = match ns.get_server_security_level(host) {
        Ok(level) => level,
        Err(error) => {
            return Err(error);
        },
    };
    Ok(threads_for_full_weaken(min_security, cur_security, enough))
}

} // verus!
