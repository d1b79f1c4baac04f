//! Packet framing: a fixed 16-byte header in front of an opaque payload.
//!
//! The header carries, in order, a protocol tag, the sender's sequence
//! number, the highest peer sequence number the sender has received, and the
//! ack bitfield for the 32 sequence numbers below it — each as four
//! big-endian bytes. The payload is never interpreted by the transport.

use crate::ack_bitfield::AckBitfield;
use crate::codec::{push_be_bytes, spec_u32_from_be_bytes, spec_u32_to_be_bytes, u32_from_be_bytes};
use crate::seq_number::SeqNumber;
use vstd::prelude::*;
use vstd::slice::{slice_subrange, slice_to_vec};

verus! {

/// Fixed tag carried by every packet; a mismatch marks foreign traffic.
pub const PROTOCOL_ID: u32 = 0x0001_0203;

/// Bytes of header in front of every payload.
pub const HEADER_SIZE: usize = 16;

/// Largest datagram the transport accepts: an Ethernet MTU of 1500 bytes
/// minus the 20-byte IP and 8-byte UDP headers.
pub const MAX_PACKET_SIZE: usize = 1500 - 20 - 8;

/// What the transport itself can hold against a packet. Socket-level
/// failures stay outside the library and are reported by the I/O layer.
#[derive(Debug, Eq, PartialEq, Clone, Copy, Structural)]
pub enum NetworkError {
    /// An inbound packet carried a protocol tag other than [`PROTOCOL_ID`].
    InvalidProtocolId,
    /// An outbound packet would not fit within [`MAX_PACKET_SIZE`].
    PacketTooLarge,
}

/// The 16 header bytes announcing `seq`, `ack` and `bitfield`.
pub open spec fn spec_header_bytes(seq: u32, ack: u32, bitfield: u32) -> Seq<u8> {
    spec_u32_to_be_bytes(PROTOCOL_ID) + spec_u32_to_be_bytes(seq) + spec_u32_to_be_bytes(ack)
        + spec_u32_to_be_bytes(bitfield)
}

/// The protocol tag announced by the header at the front of `bytes`.
pub open spec fn spec_header_protocol_id(bytes: Seq<u8>) -> u32 {
    spec_u32_from_be_bytes(bytes.subrange(0, 4))
}

/// The sequence number announced by the header at the front of `bytes`.
pub open spec fn spec_header_seq(bytes: Seq<u8>) -> u32 {
    spec_u32_from_be_bytes(bytes.subrange(4, 8))
}

/// The acknowledgement announced by the header at the front of `bytes`.
pub open spec fn spec_header_ack(bytes: Seq<u8>) -> u32 {
    spec_u32_from_be_bytes(bytes.subrange(8, 12))
}

/// The ack bitfield announced by the header at the front of `bytes`.
pub open spec fn spec_header_bitfield(bytes: Seq<u8>) -> u32 {
    spec_u32_from_be_bytes(bytes.subrange(12, 16))
}

/// The header region of a packet, owned as its raw bytes.
pub struct PacketHeader(pub Vec<u8>);

/// A whole datagram: header region first, payload after.
pub struct Packet(pub Vec<u8>);

impl PacketHeader {
    /// A header is exactly [`HEADER_SIZE`] bytes.
    pub open spec fn wf(&self) -> bool {
        self.0@.len() == HEADER_SIZE
    }

    /// Size of the encoded header in bytes.
    pub fn len() -> (r: usize)
        ensures
            r == HEADER_SIZE,
    {
        HEADER_SIZE
    }

    /// The protocol tag these bytes announce.
    pub fn protocol_id(&self) -> (r: u32)
        requires
            self.wf(),
        ensures
            r == spec_header_protocol_id(self.0@),
    {
        u32_from_be_bytes(slice_subrange(self.0.as_slice(), 0, 4))
    }

    /// The sequence number these bytes announce.
    pub fn seq(&self) -> (r: SeqNumber)
        requires
            self.wf(),
        ensures
            r.0 == spec_header_seq(self.0@),
    {
        SeqNumber::from_bytes(slice_subrange(self.0.as_slice(), 4, 8))
    }

    /// The acknowledgement these bytes announce.
    pub fn ack(&self) -> (r: SeqNumber)
        requires
            self.wf(),
        ensures
            r.0 == spec_header_ack(self.0@),
    {
        SeqNumber::from_bytes(slice_subrange(self.0.as_slice(), 8, 12))
    }

    /// The ack bitfield these bytes announce.
    pub fn ack_bitfield(&self) -> (r: AckBitfield)
        requires
            self.wf(),
        ensures
            r.0 == spec_header_bitfield(self.0@),
    {
        AckBitfield::from_bytes(slice_subrange(self.0.as_slice(), 12, 16))
    }

    /// Rewrites the header to announce `seq`, `ack` and `ack_bitfield` under
    /// the fixed protocol tag.
    pub fn set(&mut self, seq: SeqNumber, ack: SeqNumber, ack_bitfield: AckBitfield)
        ensures
            final(self).0@ == spec_header_bytes(seq.0, ack.0, ack_bitfield.0),
            final(self).wf(),
    {
        let mut buf: Vec<u8> = Vec::new();
        push_be_bytes(&mut buf, PROTOCOL_ID);
        push_be_bytes(&mut buf, seq.0);
        push_be_bytes(&mut buf, ack.0);
        push_be_bytes(&mut buf, ack_bitfield.0);
        self.0 = buf;
    }
}

/// Each field written by [`PacketHeader::set`] reads back unchanged.
pub proof fn lemma_header_round_trip(seq: u32, ack: u32, bitfield: u32)
    ensures
        spec_header_protocol_id(spec_header_bytes(seq, ack, bitfield)) == PROTOCOL_ID,
        spec_header_seq(spec_header_bytes(seq, ack, bitfield)) == seq,
        spec_header_ack(spec_header_bytes(seq, ack, bitfield)) == ack,
        spec_header_bitfield(spec_header_bytes(seq, ack, bitfield)) == bitfield,
{
    let bytes = spec_header_bytes(seq, ack, bitfield);
    assert(bytes.subrange(0, 4) =~= spec_u32_to_be_bytes(PROTOCOL_ID));
    assert(bytes.subrange(4, 8) =~= spec_u32_to_be_bytes(seq));
    assert(bytes.subrange(8, 12) =~= spec_u32_to_be_bytes(ack));
    assert(bytes.subrange(12, 16) =~= spec_u32_to_be_bytes(bitfield));
    crate::codec::lemma_u32_be_bytes_identity(PROTOCOL_ID);
    crate::codec::lemma_u32_be_bytes_identity(seq);
    crate::codec::lemma_u32_be_bytes_identity(ack);
    crate::codec::lemma_u32_be_bytes_identity(bitfield);
}

impl Packet {
    /// A packet always holds at least its header region.
    pub open spec fn wf(&self) -> bool {
        self.0@.len() >= HEADER_SIZE
    }

    /// The protocol tag in this packet's header region.
    pub open spec fn spec_protocol_id(&self) -> u32 {
        spec_header_protocol_id(self.0@)
    }

    /// The sequence number in this packet's header region.
    pub open spec fn spec_seq(&self) -> u32 {
        spec_header_seq(self.0@)
    }

    /// The acknowledgement in this packet's header region.
    pub open spec fn spec_ack(&self) -> u32 {
        spec_header_ack(self.0@)
    }

    /// The ack bitfield in this packet's header region.
    pub open spec fn spec_bitfield(&self) -> u32 {
        spec_header_bitfield(self.0@)
    }

    /// The payload bytes after the header region.
    pub open spec fn spec_payload(&self) -> Seq<u8> {
        self.0@.skip(HEADER_SIZE as int)
    }

    /// A zero-filled packet with room for `payload_len` payload bytes behind
    /// the header.
    pub fn new_boxed(payload_len: usize) -> (r: Packet)
        requires
            payload_len + HEADER_SIZE <= MAX_PACKET_SIZE,
        ensures
            r.0@.len() == payload_len + HEADER_SIZE,
            forall|i: int| 0 <= i < r.0@.len() ==> r.0@[i] == 0u8,
            r.wf(),
    {
        let buf = vec![0u8; payload_len + HEADER_SIZE];
        Packet(buf)
    }

    /// A copy of the header region.
    pub fn header(&self) -> (r: PacketHeader)
        requires
            self.wf(),
        ensures
            r.0@ == self.0@.subrange(0, HEADER_SIZE as int),
            r.wf(),
    {
        PacketHeader(slice_to_vec(slice_subrange(self.0.as_slice(), 0, HEADER_SIZE)))
    }

    /// The payload region.
    pub fn payload(&self) -> (r: &[u8])
        requires
            self.wf(),
        ensures
            r@ == self.spec_payload(),
    {
        slice_subrange(self.0.as_slice(), HEADER_SIZE, self.0.len())
    }

    /// Overwrites the payload region with `data`, leaving the header region
    /// untouched.
    pub fn payload_mut(&mut self, data: &[u8])
        requires
            old(self).wf(),
            data@.len() == old(self).0@.len() - HEADER_SIZE,
        ensures
            final(self).0@ == old(self).0@.subrange(0, HEADER_SIZE as int) + data@,
            final(self).0@.len() == old(self).0@.len(),
            final(self).wf(),
    {
        self.0.truncate(HEADER_SIZE);
        self.0.extend_from_slice(data);
        proof {
            assert(self.0@ =~= old(self).0@.subrange(0, HEADER_SIZE as int) + data@);
        }
    }

    /// Gives up the packet and hands back its raw bytes.
    pub fn into_inner(self) -> (r: Vec<u8>)
        ensures
            r@ == self.0@,
    {
        self.0
    }
}

} // verus!
