//! Double-precision numbers under a total order.
//!
//! The scheduler never does arithmetic on a double. Where one has to be
//! carried along or ranked (a script argument, a money rate) it is held
//! by its IEEE 754 bit pattern, and ranked by the total order of that
//! standard: negative quiet NaN lowest, then negative numbers, `-0`,
//! `+0`, positive numbers, and positive NaN highest.

use core::cmp::Ordering;
use vstd::prelude::*;
use vstd::std_specs::cmp::PartialOrdSpecImpl;

verus! {

/// The bit pattern of the smallest negative double, `-0`.
pub const SIGN_BIT: u64 = 0x8000_0000_0000_0000;

/// The rank of a bit pattern in the total order: patterns with a clear
/// sign bit rank by their value, those with the sign bit set rank below
/// zero, the larger pattern the lower.
pub open spec fn total_key(bits: u64) -> int {
    if bits < SIGN_BIT {
        bits as int
    } else {
        SIGN_BIT - 1 - bits
    }
}

/// A double held by its bit pattern. Two values are equal when their
/// patterns are, so `-0` and `+0` differ and a NaN equals itself.
#[derive(Debug, Clone, Copy, PartialEq, Eq, Structural)]
pub struct F64Total {
    bits: u64,
}

impl View for F64Total {
    type V = u64;

    /// The bit pattern.
    closed spec fn view(&self) -> u64 {
        self.bits
    }
}

impl F64Total {
    /// The rank of this value in the total order.
    pub open spec fn key(self) -> int {
        total_key(self@)
    }

    /// The value with the given bit pattern.
    pub fn from_bits(bits: u64) -> (value: Self)
        ensures
            value@ == bits,
    {
        F64Total { bits }
    }

    /// The bit pattern of this value.
    pub fn to_bits(self) -> (bits: u64)
        ensures
            bits == self@,
    {
        self.bits
    }

    /// The rank as a machine integer.
    pub fn rank(&self) -> (rank: i64)
        ensures
            rank == self.key(),
    {
        if self.bits < SIGN_BIT {
            self.bits as i64
        } else {
            let below: u64 = self.bits - SIGN_BIT;
            -1 - (below as i64)
        }
    }

    /// Whether this value comes strictly before `other`.
    pub fn total_lt(&self, other: &Self) -> (before: bool)
        ensures
            before == (self.key() < other.key()),
    {
        self.rank() < other.rank()
    }

    /// Whether this value comes before `other` or equals it.
    pub fn total_le(&self, other: &Self) -> (before: bool)
        ensures
            before == (self.key() <= other.key()),
    {
        self.rank() <= other.rank()
    }

    /// The larger of the two values.
    pub fn total_max(self, other: Self) -> (larger: Self)
        ensures
            larger == if self.key() >= other.key() {
                self
            } else {
                other
            },
    {
        if self.rank() >= other.rank() {
            self
        } else {
            other
        }
    }
}

impl PartialOrd for F64Total {
    /// How this value stands to `other` in the total order. Any two
    /// values are ordered.
    fn partial_cmp(&self, other: &Self) -> (order: Option<Ordering>) {
        let mine = self.rank();
        let theirs = other.rank();
        if mine < theirs {
            Some(Ordering::Less)
        } else if mine == theirs {
            Some(Ordering::Equal)
        } else {
            Some(Ordering::Greater)
        }
    }
}

impl PartialOrdSpecImpl for F64Total {
    open spec fn obeys_partial_cmp_spec() -> bool {
        true
    }

    /// The order of the ranks.
    open spec fn partial_cmp_spec(&self, other: &Self) -> Option<Ordering> {
        if self.key() < other.key() {
            Some(Ordering::Less)
        } else if self.key() == other.key() {
            Some(Ordering::Equal)
        } else {
            Some(Ordering::Greater)
        }
    }
}

/// Distinct bit patterns have distinct ranks, so the order of the ranks
/// is a total order on the values: any two different values are
/// strictly ordered one way or the other.
pub proof fn lemma_total_key_injective(a: u64, b: u64)
    ensures
        total_key(a) == total_key(b) <==> a == b,
{
}

/// The order is transitive.
pub proof fn lemma_total_order_transitive(a: F64Total, b: F64Total, c: F64Total)
    requires
        a.key() <= b.key(),
        b.key() <= c.key(),
    ensures
        a.key() <= c.key(),
{
}

/// The order is antisymmetric: two values that come before each other
/// are the same value.
pub proof fn lemma_total_order_antisymmetric(a: F64Total, b: F64Total)
    requires
        a.key() <= b.key(),
        b.key() <= a.key(),
    ensures
        a == b,
{
    lemma_total_key_injective(a@, b@);
}

} // verus!
