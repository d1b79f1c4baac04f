//! A 32-bit acknowledgement window.
//!
//! Bit `i` of the field records whether a particular sequence number below
//! the current acknowledgement was received; shifting the field forward ages
//! every recorded bit and stamps the newest position, modelling the window
//! advancing as fresher packets are acknowledged.

use crate::codec::{
    spec_u32_from_be_bytes, spec_u32_to_be_bytes, u32_from_be_bytes, u32_to_be_bytes,
};
use vstd::prelude::*;

verus! {

/// Received-status history for the 32 sequence numbers preceding the current
/// acknowledgement.
#[derive(Default, Debug, Eq, PartialEq, Clone, Copy, Structural)]
pub struct AckBitfield(pub u32);

/// Whether bit `i` of `x` is set.
pub open spec fn spec_bit(x: u32, i: u32) -> bool {
    (x >> i) & 1 == 1
}

/// `x` with bit `i` set.
pub open spec fn spec_set_bit(x: u32, i: u32) -> u32 {
    x | (1u32 << i)
}

/// The window `x` advanced by `shifts` positions (meaningful for
/// `shifts >= 1`): every bit moves down `shifts` places, the entry that lands
/// on the highest surviving position is the freshly stamped top bit, and a
/// window advanced past its width empties out (save for the stamped bit when
/// `shifts` is exactly the width).
pub open spec fn spec_shift(x: u32, shifts: u32) -> u32 {
    if shifts > 32 {
        0
    } else {
        ((x >> 1) | 0x8000_0000) >> ((shifts - 1) as u32)
    }
}

impl AckBitfield {
    /// Reads a bitfield from its four big-endian bytes.
    pub fn from_bytes(bytes: &[u8]) -> (r: Self)
        requires
            bytes@.len() == 4,
        ensures
            r.0 == spec_u32_from_be_bytes(bytes@),
    {
        AckBitfield(u32_from_be_bytes(bytes))
    }

    /// Writes the bitfield as four big-endian bytes.
    pub fn to_bytes(&self) -> (r: [u8; 4])
        ensures
            r@ == spec_u32_to_be_bytes(self.0),
    {
        u32_to_be_bytes(self.0)
    }

    /// Marks bit `index` as received.
    pub fn set(&mut self, index: u8)
        requires
            index <= 31,
        ensures
            final(self).0 == spec_set_bit(old(self).0, index as u32),
    {
        self.0 = self.0 | (1u32 << (index as u32));
    }

    /// Whether bit `index` is marked as received.
    pub fn get(&self, index: u8) -> (r: bool)
        requires
            index <= 31,
        ensures
            r == spec_bit(self.0, index as u32),
    {
        let mask = 1u32 << (index as u32);
        let and = self.0 & mask;
        proof {
            let x = self.0;
            let i = index as u32;
            assert(i <= 31 ==> ((x & (1u32 << i) == (1u32 << i)) <==> ((x >> i) & 1 == 1)))
                by (bit_vector);
        }
        and == mask
    }

    /// Advances the window by `shifts` positions.
    pub fn shift(&mut self, shifts: u32)
        requires
            shifts >= 1,
        ensures
            final(self).0 == spec_shift(old(self).0, shifts),
    {
        let aged = (self.0 >> 1u32) | 0x8000_0000;
        self.0 = if shifts > 32 {
            0
        } else {
            aged >> (shifts - 1)
        };
    }
}

/// Which bit ends up where after an advance: position `j` of the advanced
/// window shows what stood `shifts` places above it, the position that the
/// advance itself stamps reads as received, and everything that fell off the
/// top reads as empty.
pub proof fn lemma_shift_bit(x: u32, shifts: u32, j: u32)
    requires
        1 <= shifts,
        j < 32,
    ensures
        spec_bit(spec_shift(x, shifts), j) == (if j + shifts == 32 {
            true
        } else if j + shifts < 32 {
            spec_bit(x, (j + shifts) as u32)
        } else {
            false
        }),
{
    let s = shifts;
    if s > 32 {
        assert((0u32 >> j) & 1 != 1) by (bit_vector);
    } else if j + s == 32 {
        assert((1 <= s && s <= 32 && j < 32 && j + s == 32) ==> ((((x >> 1) | 0x8000_0000) >> ((s
            - 1) as u32)) >> j) & 1 == 1) by (bit_vector);
    } else if j + s < 32 {
        assert((1 <= s && s <= 32 && j < 32 && j + s < 32) ==> (((((x >> 1) | 0x8000_0000) >> ((s
            - 1) as u32)) >> j) & 1 == 1) == ((x >> ((j + s) as u32)) & 1 == 1)) by (bit_vector);
    } else {
        assert((1 <= s && s <= 32 && j < 32 && j + s > 32) ==> ((((x >> 1) | 0x8000_0000) >> ((s
            - 1) as u32)) >> j) & 1 != 1) by (bit_vector);
    }
}

/// Setting one bit touches exactly that bit.
pub proof fn lemma_set_bit(x: u32, i: u32, j: u32)
    requires
        i <= 31,
        j < 32,
    ensures
        spec_bit(spec_set_bit(x, i), j) == (j == i || spec_bit(x, j)),
{
    assert((i <= 31 && j < 32) ==> ((((x | (1u32 << i)) >> j) & 1 == 1) == (j == i || (x >> j) & 1
        == 1))) by (bit_vector);
}

/// After recording bit `i` and advancing the window one step, the record has
/// aged into bit `i - 1`, the freshly stamped top bit reads as received, and
/// every other position shows what stood one place above it.
pub proof fn lemma_set_then_shift_one(x: u32, i: u32)
    requires
        i <= 31,
    ensures
        spec_bit(spec_shift(spec_set_bit(x, i), 1), 31),
        1 <= i ==> spec_bit(spec_shift(spec_set_bit(x, i), 1), (i - 1) as u32),
        forall|j: u32|
            j < 31 ==> spec_bit(spec_shift(spec_set_bit(x, i), 1), j) == (j + 1 == i || spec_bit(
                x,
                (j + 1) as u32,
            )),
{
    let y = spec_set_bit(x, i);
    lemma_shift_bit(y, 1, 31);
    if 1 <= i {
        lemma_shift_bit(y, 1, (i - 1) as u32);
        lemma_set_bit(x, i, i);
    }
    assert forall|j: u32| j < 31 implies spec_bit(spec_shift(y, 1), j) == (j + 1 == i || spec_bit(
        x,
        (j + 1) as u32,
    )) by {
        lemma_shift_bit(y, 1, j);
        lemma_set_bit(x, i, (j + 1) as u32);
    }
}

/// An ack bitfield survives the trip through its byte encoding.
pub proof fn lemma_bitfield_bytes_round_trip(b: AckBitfield)
    ensures
        spec_u32_from_be_bytes(spec_u32_to_be_bytes(b.0)) == b.0,
{
    crate::codec::lemma_u32_be_bytes_identity(b.0);
}

} // verus!
