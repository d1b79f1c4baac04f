//! The transport endpoint's decisions, parted from its I/O.
//!
//! An endpoint owns one connection and a first-in-first-out outbox of packets
//! accepted for sending. The I/O layer around it performs the socket work:
//! it hands every flushed packet to the socket in the order this module
//! returns them, and hands every received datagram in for validation. Keeping
//! the stamping inside one place makes the wire-visible sequence numbers
//! strictly increasing in enqueue order.

use crate::connection::{
    spec_check_admissible, spec_check_effects, spec_update_effects, Connection,
    NonDeliveredPackets, PACKET_TIMEOUT_MS,
};
use crate::packet::{
    spec_header_bytes, spec_header_seq, NetworkError, Packet, HEADER_SIZE, MAX_PACKET_SIZE,
    PROTOCOL_ID,
};
use crate::seq_number::spec_next;
use vstd::arithmetic::div_mod::{
    lemma_add_mod_noop, lemma_fundamental_div_mod, lemma_mod_bound, lemma_mod_self_0,
    lemma_small_mod,
};
use vstd::prelude::*;

verus! {

/// `x` advanced `n` steps around the 32-bit circle.
pub open spec fn spec_wrap_add(x: u32, n: int) -> u32 {
    ((x + n) % 0x1_0000_0000) as u32
}

/// Advancing one more step is the successor of the advanced value.
proof fn lemma_wrap_add_next(x: u32, n: int)
    requires
        n >= 0,
    ensures
        spec_next(spec_wrap_add(x, n)) == spec_wrap_add(x, n + 1),
{
    let m = 0x1_0000_0000int;
    lemma_mod_bound(x + n, m);
    lemma_add_mod_noop(x + n, 1, m);
    lemma_small_mod(1nat, m as nat);
    let r = (x + n) % m;
    if r + 1 == m {
        lemma_mod_self_0(m);
    } else {
        lemma_mod_bound(x + n, m);
        lemma_small_mod((r + 1) as nat, m as nat);
    }
}

/// Fewer than a full turn of the circle never revisits a value.
proof fn lemma_wrap_add_distinct(x: u32, i: int, j: int)
    requires
        0 <= i < j,
        j - i < 0x1_0000_0000,
    ensures
        spec_wrap_add(x, i) != spec_wrap_add(x, j),
{
    let m = 0x1_0000_0000int;
    let a = x + i;
    let b = x + j;
    lemma_mod_bound(a, m);
    lemma_mod_bound(b, m);
    lemma_fundamental_div_mod(a, m);
    lemma_fundamental_div_mod(b, m);
    if a % m == b % m {
        let q = b / m - a / m;
        assert(b - a == m * q);
        assert(0 < m * q < m);
        assert(false) by (nonlinear_arith)
            requires
                0 < m * q < m,
                m == 0x1_0000_0000int,
        ;
    }
}

/// One endpoint: its protocol state and the packets accepted but not yet
/// flushed to the socket.
pub struct Endpoint {
    connection: Connection,
    outbox: Vec<Packet>,
}

impl Endpoint {
    /// The connection this endpoint drives.
    pub closed spec fn conn(&self) -> Connection {
        self.connection
    }

    /// Packets accepted for sending, oldest first.
    pub closed spec fn outbox(&self) -> Seq<Packet> {
        self.outbox@
    }

    /// The connection is well formed and everything queued is a packet the
    /// wire can carry.
    pub open spec fn wf(&self) -> bool {
        &&& self.conn().wf()
        &&& forall|i: int|
            0 <= i < self.outbox().len() ==> (#[trigger] self.outbox()[i].0@.len() >= HEADER_SIZE
                && self.outbox()[i].0@.len() <= MAX_PACKET_SIZE)
    }

    /// A fresh endpoint over a fresh connection, with an empty outbox.
    pub fn new() -> (r: Endpoint)
        ensures
            r.wf(),
            r.outbox() == Seq::<Packet>::empty(),
            r.conn().seq_val() == 0,
            r.conn().ack_val() == 0,
            r.conn().bitfield_val() == 0,
            r.conn().idle_remaining() == crate::connection::IDLE_TIMEOUT_MS,
            r.conn().pending() == Map::<u32, u64>::empty(),
    {
        Endpoint { connection: Connection::new(), outbox: Vec::new() }
    }

    /// Accepts `packet` for sending, or refuses one the wire cannot carry.
    pub fn enqueue(&mut self, packet: Packet) -> (r: Result<(), NetworkError>)
        requires
            old(self).wf(),
            packet.wf(),
        ensures
            final(self).wf(),
            final(self).conn() == old(self).conn(),
            packet.0@.len() > MAX_PACKET_SIZE ==> {
                &&& r == Err::<(), NetworkError>(NetworkError::PacketTooLarge)
                &&& final(self).outbox() == old(self).outbox()
            },
            packet.0@.len() <= MAX_PACKET_SIZE ==> {
                &&& r == Ok::<(), NetworkError>(())
                &&& final(self).outbox() == old(self).outbox().push(packet)
            },
    {
        if packet.0.len() > MAX_PACKET_SIZE {
            return Err(NetworkError::PacketTooLarge);
        }
        self.outbox.push(packet);
        proof {
            assert forall|i: int| 0 <= i < self.outbox@.len() implies (
            #[trigger] self.outbox@[i].0@.len() >= HEADER_SIZE && self.outbox@[i].0@.len()
                <= MAX_PACKET_SIZE) by {
                if i < old(self).outbox().len() {
                    assert(self.outbox@[i] == old(self).outbox()[i]);
                    assert(old(self).outbox()[i].0@.len() >= HEADER_SIZE);
                } else {
                    assert(self.outbox@[i] == packet);
                }
            }
        }
        Ok(())
    }

    /// Stamps every queued packet, oldest first, and hands them back in that
    /// order, ready for the socket.
    ///
    /// The `i`-th packet of one flush carries the send counter advanced `i`
    /// steps, so the wire sees sequence numbers strictly in enqueue order;
    /// each stamped number is registered as pending under the full
    /// confirmation budget. One flush of a whole turn of the sequence space
    /// or more could not stamp every packet distinctly, so the outbox must
    /// stay below that (any queue that fits in memory does).
    pub fn flush(&mut self) -> (sent: Vec<Packet>)
        requires
            old(self).wf(),
            old(self).outbox().len() < 0x1_0000_0000,
        ensures
            final(self).wf(),
            final(self).outbox().len() == 0,
            sent@.len() == old(self).outbox().len(),
            forall|i: int|
                0 <= i < sent@.len() ==> #[trigger] sent@[i].0@ == spec_header_bytes(
                    spec_wrap_add(old(self).conn().seq_val(), i),
                    old(self).conn().ack_val(),
                    old(self).conn().bitfield_val(),
                ) + old(self).outbox()[i].0@.skip(HEADER_SIZE as int),
            final(self).conn().seq_val() == spec_wrap_add(
                old(self).conn().seq_val(),
                old(self).outbox().len() as int,
            ),
            final(self).conn().ack_val() == old(self).conn().ack_val(),
            final(self).conn().bitfield_val() == old(self).conn().bitfield_val(),
            final(self).conn().idle_remaining() == old(self).conn().idle_remaining(),
            forall|k: u32|
                #[trigger] final(self).conn().pending().contains_key(k) <==> (old(
                    self,
                ).conn().pending().contains_key(k) || exists|i: int|
                    0 <= i < old(self).outbox().len() && k == spec_wrap_add(
                        old(self).conn().seq_val(),
                        i,
                    )),
            forall|i: int|
                0 <= i < old(self).outbox().len() ==> final(self).conn().pending()[
                    #[trigger] spec_wrap_add(old(self).conn().seq_val(), i)] == PACKET_TIMEOUT_MS,
            forall|k: u32|
                old(self).conn().pending().contains_key(k) && !(exists|i: int|
                    0 <= i < old(self).outbox().len() && k == spec_wrap_add(
                        old(self).conn().seq_val(),
                        i,
                    )) ==> final(self).conn().pending()[k] == old(self).conn().pending()[k],
    {
        let ghost ob0 = self.outbox@;
        let ghost c0 = self.connection;
        let mut sent: Vec<Packet> = Vec::new();
        while self.outbox.len() > 0
            invariant
                c0 == old(self).conn(),
                ob0 == old(self).outbox(),
                c0.wf(),
                ob0.len() < 0x1_0000_0000,
                sent@.len() + self.outbox@.len() == ob0.len(),
                self.outbox@ == ob0.skip(sent@.len() as int),
                forall|i: int|
                    0 <= i < self.outbox@.len() ==> (#[trigger] self.outbox@[i].0@.len()
                        >= HEADER_SIZE && self.outbox@[i].0@.len() <= MAX_PACKET_SIZE),
                self.connection.wf(),
                self.connection.seq_val() == spec_wrap_add(c0.seq_val(), sent@.len() as int),
                self.connection.ack_val() == c0.ack_val(),
                self.connection.bitfield_val() == c0.bitfield_val(),
                self.connection.idle_remaining() == c0.idle_remaining(),
                forall|i: int|
                    0 <= i < sent@.len() ==> #[trigger] sent@[i].0@ == spec_header_bytes(
                        spec_wrap_add(c0.seq_val(), i),
                        c0.ack_val(),
                        c0.bitfield_val(),
                    ) + ob0[i].0@.skip(HEADER_SIZE as int),
                forall|k: u32|
                    #[trigger] self.connection.pending().contains_key(k) <==> (
                    c0.pending().contains_key(k) || exists|i: int|
                        0 <= i < sent@.len() && k == spec_wrap_add(c0.seq_val(), i)),
                forall|i: int|
                    0 <= i < sent@.len() ==> self.connection.pending()[
                        #[trigger] spec_wrap_add(c0.seq_val(), i)] == PACKET_TIMEOUT_MS,
                forall|k: u32|
                    c0.pending().contains_key(k) && !(exists|i: int|
                        0 <= i < sent@.len() && k == spec_wrap_add(c0.seq_val(), i))
                        ==> self.connection.pending()[k] == c0.pending()[k],
            decreases self.outbox.len(),
        {
            let ghost n = sent@.len() as int;
            let mut packet = self.outbox.remove(0);
            self.connection.fill_header(&mut packet);
            proof {
                lemma_wrap_add_next(c0.seq_val(), n);
                assert forall|i: int| 0 <= i < n implies spec_wrap_add(c0.seq_val(), i)
                    != spec_wrap_add(c0.seq_val(), n) by {
                    lemma_wrap_add_distinct(c0.seq_val(), i, n);
                }
                assert(self.outbox@ =~= ob0.skip(n + 1));
                assert(ob0[n].0@.skip(HEADER_SIZE as int) == ob0.skip(n)[0].0@.skip(
                    HEADER_SIZE as int,
                ));
            }
            sent.push(packet);
        }
        proof {
            assert(sent@.len() == ob0.len());
        }
        sent
    }

    /// Whether the connection can finish validating a datagram carrying this
    /// header. The one arrangement it cannot finish — a sequence number below
    /// the stored acknowledgement yet at or above the local send counter —
    /// cannot arise from a well-behaved peer, whose numbers all come from
    /// headers this endpoint stamped.
    pub fn admissible(&self, bytes: &[u8]) -> (r: bool)
        requires
            bytes@.len() >= HEADER_SIZE,
        ensures
            r == spec_check_admissible(
                self.conn().seq_val(),
                self.conn().ack_val(),
                spec_header_seq(bytes@),
            ),
    {
        let packet_seq = crate::codec::u32_from_be_bytes(
            vstd::slice::slice_subrange(bytes, 4, 8),
        );
        !(packet_seq < self.connection.ack_raw()) || packet_seq < self.connection.seq_raw()
    }

    /// Validates one received datagram against the connection and hands it
    /// back as a packet; rejected traffic leaves the connection untouched.
    pub fn accept(&mut self, bytes: Vec<u8>) -> (r: Result<Packet, NetworkError>)
        requires
            old(self).wf(),
            bytes@.len() >= HEADER_SIZE,
            crate::packet::spec_header_protocol_id(bytes@) == PROTOCOL_ID
                ==> spec_check_admissible(
                old(self).conn().seq_val(),
                old(self).conn().ack_val(),
                spec_header_seq(bytes@),
            ),
        ensures
            final(self).wf(),
            final(self).outbox() == old(self).outbox(),
            crate::packet::spec_header_protocol_id(bytes@) != PROTOCOL_ID ==> {
                &&& r == Err::<Packet, NetworkError>(NetworkError::InvalidProtocolId)
                &&& final(self).conn() == old(self).conn()
            },
            crate::packet::spec_header_protocol_id(bytes@) == PROTOCOL_ID ==> (r matches Ok(p) && {
                &&& p.0@ == bytes@
                &&& spec_check_effects(
                    old(self).conn(),
                    final(self).conn(),
                    crate::packet::spec_header_seq(bytes@),
                    crate::packet::spec_header_ack(bytes@),
                    crate::packet::spec_header_bitfield(bytes@),
                )
            }),
    {
        let packet = Packet(bytes);
        let r = self.connection.check(&packet);
        proof {
            assert forall|i: int| 0 <= i < self.outbox@.len() implies (
            #[trigger] self.outbox@[i].0@.len() >= HEADER_SIZE && self.outbox@[i].0@.len()
                <= MAX_PACKET_SIZE) by {
                assert(self.outbox@[i] == old(self).outbox()[i]);
                assert(old(self).outbox()[i].0@.len() >= HEADER_SIZE);
            }
        }
        match r {
            Ok(()) => Ok(packet),
            Err(e) => Err(e),
        }
    }

    /// Lets `dt` milliseconds pass on the connection; `None` reports the
    /// idle timeout, `Some` lists the packets whose confirmation budget ran
    /// out. The outbox is untouched either way.
    pub fn update(&mut self, dt: u64) -> (r: Option<NonDeliveredPackets>)
        requires
            old(self).wf(),
        ensures
            final(self).wf(),
            final(self).outbox() == old(self).outbox(),
            final(self).conn().seq_val() == old(self).conn().seq_val(),
            final(self).conn().ack_val() == old(self).conn().ack_val(),
            final(self).conn().bitfield_val() == old(self).conn().bitfield_val(),
            dt > old(self).conn().idle_remaining() ==> {
                &&& r is None
                &&& final(self).conn().idle_remaining() == old(self).conn().idle_remaining()
                &&& final(self).conn().pending() == old(self).conn().pending()
            },
            dt <= old(self).conn().idle_remaining() ==> (r matches Some(timed)
                && spec_update_effects(old(self).conn(), final(self).conn(), dt, timed@)),
    {
        let r = self.connection.update(dt);
        proof {
            assert forall|i: int| 0 <= i < self.outbox@.len() implies (
            #[trigger] self.outbox@[i].0@.len() >= HEADER_SIZE && self.outbox@[i].0@.len()
                <= MAX_PACKET_SIZE) by {
                assert(self.outbox@[i] == old(self).outbox()[i]);
                assert(old(self).outbox()[i].0@.len() >= HEADER_SIZE);
            }
        }
        r
    }
}

} // verus!
