//! Wrapping 32-bit sequence numbers with circular-recency comparison.
//!
//! A sequence number is a per-endpoint counter stamped on every outbound
//! packet; it wraps around the full 32-bit range, so two numbers are compared
//! by their signed wraparound distance rather than as plain integers. The
//! comparison is deliberately partial: when the direction cannot be resolved
//! within half the number space, no distance is reported.

use crate::codec::{
    spec_u32_from_be_bytes, spec_u32_to_be_bytes, u32_from_be_bytes, u32_to_be_bytes,
};
use vstd::prelude::*;

verus! {

/// Half of the 32-bit range; distances beyond it are treated as ambiguous.
pub const HALF_RANGE: u32 = 0x7fff_ffff;

/// A monotonically wrapping per-endpoint packet counter.
#[derive(Debug, Eq, PartialEq, Hash, Copy, Clone, PartialOrd, Structural)]
pub struct SeqNumber(pub u32);

/// The successor of `x` in the wrapping counter.
pub open spec fn spec_next(x: u32) -> u32 {
    if x == u32::MAX {
        0
    } else {
        (x + 1) as u32
    }
}

/// The distance reported by `SeqNumber::distance_to`, from `b` to `a`.
///
/// `None` whenever `a` is below `b` as a plain integer. Otherwise the raw gap
/// `a - b` is reported when it fits within half the range, and the complement
/// `2^32 - (a - b)` — the short way around the circle — when it does not.
pub open spec fn spec_distance(a: u32, b: u32) -> Option<u32> {
    if a < b {
        None
    } else if a - b <= HALF_RANGE {
        Some((a - b) as u32)
    } else {
        Some((0x1_0000_0000 - (a - b)) as u32)
    }
}

/// Whatever distance is reported never exceeds half the range plus one.
pub proof fn lemma_distance_bound(a: u32, b: u32)
    ensures
        spec_distance(a, b) matches Some(d) ==> d <= 0x8000_0000u32,
{
}

impl SeqNumber {
    /// Increments the counter, wrapping at the top of the range.
    pub fn next(&self) -> (r: Self)
        ensures
            r.0 == spec_next(self.0),
    {
        if self.0 == u32::MAX {
            SeqNumber(0)
        } else {
            SeqNumber(self.0 + 1)
        }
    }

    /// Reads a sequence number from its four big-endian bytes.
    pub fn from_bytes(bytes: &[u8]) -> (r: Self)
        requires
            bytes@.len() == 4,
        ensures
            r.0 == spec_u32_from_be_bytes(bytes@),
    {
        SeqNumber(u32_from_be_bytes(bytes))
    }

    /// Writes the counter as four big-endian bytes.
    pub fn to_bytes(&self) -> (r: [u8; 4])
        ensures
            r@ == spec_u32_to_be_bytes(self.0),
    {
        u32_to_be_bytes(self.0)
    }

    /// How many steps `self` is ahead of `rhs` in circular order, or `None`
    /// when `self` sits behind `rhs` as a plain integer and the direction is
    /// not resolved.
    pub fn distance_to(&self, rhs: &Self) -> (r: Option<u32>)
        ensures
            r == spec_distance(self.0, rhs.0),
    {
        if self.0 >= rhs.0 {
            let diff = self.0 - rhs.0;
            if diff <= HALF_RANGE {
                Some(diff)
            } else {
                Some((u32::MAX - diff) + 1)
            }
        } else {
            None
        }
    }
}

impl From<u32> for SeqNumber {
    fn from(n: u32) -> (r: SeqNumber) {
        SeqNumber(n)
    }
}

impl vstd::std_specs::convert::FromSpecImpl<u32> for SeqNumber {
    open spec fn obeys_from_spec() -> bool {
        true
    }

    open spec fn from_spec(n: u32) -> SeqNumber {
        SeqNumber(n)
    }
}

/// A wrapping increment always moves one step forward in circular order.
///
/// The counter's own comparison cannot see past its wrap point: stepping off
/// the very top of the range lands on a value that the raw ordering places
/// below everything, so that one starting point is excluded.
pub proof fn lemma_next_distance(a: u32)
    requires
        a < u32::MAX,
    ensures
        spec_distance(spec_next(a), a) == Some(1u32),
{
}

/// When two counters sit more than half the range apart as plain integers,
/// the ambiguity resolves toward the short way around the circle: the smaller
/// one reports the wraparound gap, the larger one reports nothing.
pub proof fn lemma_distance_far_pair(a: u32, b: u32)
    requires
        a >= b,
        a - b > HALF_RANGE,
    ensures
        spec_distance(a, b) == Some((0x1_0000_0000 - (a - b)) as u32),
        0x1_0000_0000 - (a - b) <= a - b,
        spec_distance(b, a) == (if a == b {
            Some(0u32)
        } else {
            None::<u32>
        }),
{
}

/// A sequence number survives the trip through its byte encoding.
pub proof fn lemma_seq_number_bytes_round_trip(s: SeqNumber)
    ensures
        spec_u32_from_be_bytes(spec_u32_to_be_bytes(s.0)) == s.0,
{
    crate::codec::lemma_u32_be_bytes_identity(s.0);
}

} // verus!
