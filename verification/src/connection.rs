//! Per-peer protocol state: send counter, receive acknowledgements, and the
//! pending-timeout bookkeeping for locally sent packets.
//!
//! A connection stamps every outbound header with its current counters and
//! registers the packet under a retransmission budget; every valid inbound
//! packet advances the acknowledgement window, confirms delivered packets,
//! and refreshes the idle timer. Time is carried as whole milliseconds.

use crate::ack_bitfield::{spec_bit, spec_set_bit, spec_shift, AckBitfield};
use crate::codec::u32_from_be_bytes;
use crate::packet::{NetworkError, Packet, HEADER_SIZE, PROTOCOL_ID};
use crate::seq_number::{spec_distance, spec_next, SeqNumber};
use vstd::prelude::*;
use vstd::slice::slice_subrange;

verus! {

/// Milliseconds of silence after which a connection counts as dead.
pub const IDLE_TIMEOUT_MS: u64 = 10_000;

/// Milliseconds a sent packet may wait for confirmation before it is
/// reported as non-delivered.
pub const PACKET_TIMEOUT_MS: u64 = 1_000;

/// The whole-connection idle allowance, in milliseconds.
pub fn timeout() -> (t: u64)
    ensures
        t == IDLE_TIMEOUT_MS,
{
    IDLE_TIMEOUT_MS
}

/// The per-packet confirmation allowance, in milliseconds.
pub fn packet_timeout() -> (t: u64)
    ensures
        t == PACKET_TIMEOUT_MS,
{
    PACKET_TIMEOUT_MS
}

/// Bytes every stamped header occupies at the front of a packet.
pub fn header_size() -> (r: usize)
    ensures
        r == HEADER_SIZE,
{
    HEADER_SIZE
}

/// Sequence numbers whose packets outlived their confirmation budget.
pub type NonDeliveredPackets = Vec<SeqNumber>;

/// The association read off a sequence of key-value pairs, later entries
/// winning.
pub open spec fn spec_pairs_to_map(s: Seq<(u32, u64)>) -> Map<u32, u64>
    decreases s.len(),
{
    if s.len() == 0 {
        Map::empty()
    } else {
        spec_pairs_to_map(s.drop_last()).insert(s.last().0, s.last().1)
    }
}

/// No key occurs twice.
pub open spec fn spec_unique_keys(s: Seq<(u32, u64)>) -> bool {
    forall|i: int, j: int| 0 <= i < j < s.len() ==> s[i].0 != s[j].0
}

/// A key is in the association exactly when some pair carries it.
proof fn lemma_pairs_map_contains(s: Seq<(u32, u64)>, k: u32)
    ensures
        spec_pairs_to_map(s).contains_key(k) <==> exists|i: int| 0 <= i < s.len() && s[i].0 == k,
    decreases s.len(),
{
    if s.len() > 0 {
        let prefix = s.drop_last();
        lemma_pairs_map_contains(prefix, k);
        if spec_pairs_to_map(s).contains_key(k) && s.last().0 != k {
            let i = choose|i: int| 0 <= i < prefix.len() && prefix[i].0 == k;
            assert(s[i].0 == k);
        }
        if exists|i: int| 0 <= i < s.len() && s[i].0 == k {
            let i = choose|i: int| 0 <= i < s.len() && s[i].0 == k;
            if i < s.len() - 1 {
                assert(prefix[i].0 == k);
            }
        }
    }
}

/// Dropping the pair at `i` removes exactly its key from the association.
proof fn lemma_pairs_map_remove(s: Seq<(u32, u64)>, i: int)
    requires
        spec_unique_keys(s),
        0 <= i < s.len(),
    ensures
        spec_unique_keys(s.remove(i)),
        spec_pairs_to_map(s.remove(i)) == spec_pairs_to_map(s).remove(s[i].0),
    decreases s.len(),
{
    let k = s[i].0;
    if i == s.len() - 1 {
        assert(s.remove(i) =~= s.drop_last());
        lemma_pairs_map_contains(s.drop_last(), k);
        assert(spec_pairs_to_map(s.drop_last()) =~= spec_pairs_to_map(s).remove(k));
    } else {
        let prefix = s.drop_last();
        lemma_pairs_map_remove(prefix, i);
        assert(s.remove(i).drop_last() =~= prefix.remove(i));
        assert(s.remove(i).last() == s.last());
        assert(spec_pairs_to_map(s.remove(i)) == spec_pairs_to_map(prefix.remove(i)).insert(
            s.last().0,
            s.last().1,
        ));
        assert(spec_pairs_to_map(prefix).remove(k).insert(s.last().0, s.last().1)
            =~= spec_pairs_to_map(s).remove(k));
    }
}

/// Appending a pair records its key in the association.
proof fn lemma_pairs_map_push(s: Seq<(u32, u64)>, k: u32, v: u64)
    ensures
        spec_pairs_to_map(s.push((k, v))) == spec_pairs_to_map(s).insert(k, v),
{
    assert(s.push((k, v)).drop_last() =~= s);
}

/// Removes the entry under `key`, if any, from a unique-keyed pair vector.
fn pairs_remove(pairs: &mut Vec<(u32, u64)>, key: u32)
    requires
        spec_unique_keys(old(pairs)@),
    ensures
        spec_unique_keys(final(pairs)@),
        spec_pairs_to_map(final(pairs)@) == spec_pairs_to_map(old(pairs)@).remove(key),
        forall|j: int| 0 <= j < final(pairs)@.len() ==> final(pairs)@[j].0 != key,
{
    let ghost s0 = pairs@;
    let mut i: usize = 0;
    while i < pairs.len()
        invariant
            pairs@ == s0,
            s0 == old(pairs)@,
            spec_unique_keys(s0),
            i <= s0.len(),
            forall|j: int| 0 <= j < i ==> s0[j].0 != key,
        decreases pairs.len() - i,
    {
        if pairs[i].0 == key {
            proof {
                lemma_pairs_map_remove(s0, i as int);
            }
            pairs.remove(i);
            proof {
                assert(pairs@ == s0.remove(i as int));
                assert(s0[i as int].0 == key);
                assert(spec_pairs_to_map(pairs@) == spec_pairs_to_map(s0).remove(key));
            }
            return ;
        }
        i += 1;
    }
    proof {
        lemma_pairs_map_contains(s0, key);
        assert(spec_pairs_to_map(s0).remove(key) =~= spec_pairs_to_map(s0));
    }
}

/// The sequence number 32 below `ack`, clamped at zero: the oldest slot the
/// ack bitfield can speak about.
pub open spec fn spec_ack_lower(ack: u32) -> u32 {
    if ack >= 32 {
        (ack - 32) as u32
    } else {
        0
    }
}

/// The sequence numbers that an `ack` / `bits` pair additionally confirms:
/// those in the 32-slot window below `ack` whose bit is set.
pub open spec fn spec_acked_set(ack: u32, bits: u32) -> Set<u32> {
    Set::new(
        |s: u32| spec_ack_lower(ack) <= s < ack && spec_bit(bits, (s - spec_ack_lower(ack)) as u32),
    )
}

/// Inbound packets the connection can finish validating: a packet that sits
/// below the stored acknowledgement (so the ambiguous-direction path is
/// taken) must also sit below the local send counter.
pub open spec fn spec_check_admissible(conn_seq: u32, conn_ack: u32, packet_seq: u32) -> bool {
    packet_seq < conn_ack ==> packet_seq < conn_seq
}

/// How a successful [`Connection::check`] rewrites the state, given the
/// `seq` / `ack` / `bitfield` fields of the validated packet: the
/// acknowledgement window advances or records the packet, the packet's own
/// acknowledgements clear pending entries, and the idle allowance refills.
pub open spec fn spec_check_effects(
    pre: Connection,
    post: Connection,
    hs: u32,
    ha: u32,
    hbf: u32,
) -> bool {
    &&& post.seq_val() == pre.seq_val()
    &&& post.idle_remaining() == IDLE_TIMEOUT_MS
    &&& match spec_distance(hs, pre.ack_val()) {
        Some(d) => post.ack_val() == hs && post.bitfield_val() == spec_shift(
            pre.bitfield_val(),
            (d + 1) as u32,
        ),
        None => post.ack_val() == pre.ack_val() && match spec_distance(pre.seq_val(), hs) {
            Some(diff) => post.bitfield_val() == (if diff <= 32 {
                spec_set_bit(pre.bitfield_val(), (32 - diff) as u32)
            } else {
                pre.bitfield_val()
            }),
            None => true,
        },
    }
    &&& post.pending() == pre.pending().remove(ha).remove_keys(spec_acked_set(ha, hbf))
}

/// How [`Connection::update`] rewrites the state and what it reports while
/// the idle allowance covers `dt`: both timers advance by `dt`, entries whose
/// budget `dt` brings to zero or below are dropped, and exactly their
/// sequence numbers are reported, each once.
pub open spec fn spec_update_effects(
    pre: Connection,
    post: Connection,
    dt: u64,
    timed: Seq<SeqNumber>,
) -> bool {
    &&& post.seq_val() == pre.seq_val()
    &&& post.ack_val() == pre.ack_val()
    &&& post.bitfield_val() == pre.bitfield_val()
    &&& post.idle_remaining() == pre.idle_remaining() - dt
    &&& forall|k: u32|
        #[trigger] post.pending().contains_key(k) <==> (pre.pending().contains_key(k)
            && pre.pending()[k] > dt)
    &&& forall|k: u32|
        post.pending().contains_key(k) ==> post.pending()[k] == pre.pending()[k] - dt
    &&& forall|k: u32|
        #[trigger] timed.contains(SeqNumber(k)) <==> (pre.pending().contains_key(k)
            && pre.pending()[k] <= dt)
    &&& forall|i: int, j: int| 0 <= i < j < timed.len() ==> timed[i] != timed[j]
}

/// One endpoint's protocol state toward a single peer.
pub struct Connection {
    timeout_timer: u64,
    seq: SeqNumber,
    ack: SeqNumber,
    ack_bitfield: AckBitfield,
    timeouts: Vec<(u32, u64)>,
}

impl Connection {
    /// The pending-timeout vector never lists a sequence number twice.
    pub closed spec fn wf(&self) -> bool {
        spec_unique_keys(self.timeouts@)
    }

    /// The local send counter: the next outbound sequence number.
    pub closed spec fn seq_val(&self) -> u32 {
        self.seq.0
    }

    /// The highest peer sequence number received so far.
    pub closed spec fn ack_val(&self) -> u32 {
        self.ack.0
    }

    /// The received-status window below [`Connection::ack_val`].
    pub closed spec fn bitfield_val(&self) -> u32 {
        self.ack_bitfield.0
    }

    /// Milliseconds left before the connection counts as dead.
    pub closed spec fn idle_remaining(&self) -> u64 {
        self.timeout_timer
    }

    /// Locally sent, not yet confirmed sequence numbers, each with its
    /// remaining confirmation budget in milliseconds.
    pub closed spec fn pending(&self) -> Map<u32, u64> {
        spec_pairs_to_map(self.timeouts@)
    }

    /// The local send counter as a plain integer.
    pub fn seq_raw(&self) -> (r: u32)
        ensures
            r == self.seq_val(),
    {
        self.seq.0
    }

    /// The highest received peer sequence number as a plain integer.
    pub fn ack_raw(&self) -> (r: u32)
        ensures
            r == self.ack_val(),
    {
        self.ack.0
    }

    /// A fresh connection: counters at zero, empty history, no packets
    /// outstanding, a full idle allowance.
    pub fn new() -> (r: Connection)
        ensures
            r.wf(),
            r.seq_val() == 0,
            r.ack_val() == 0,
            r.bitfield_val() == 0,
            r.idle_remaining() == IDLE_TIMEOUT_MS,
            r.pending() == Map::<u32, u64>::empty(),
    {
        Connection {
            timeout_timer: IDLE_TIMEOUT_MS,
            seq: SeqNumber(0),
            ack: SeqNumber(0),
            ack_bitfield: AckBitfield(0),
            timeouts: Vec::new(),
        }
    }

    /// Stamps `packet`'s header with the current counters, registers the
    /// stamped sequence number under the full confirmation budget, and
    /// advances the send counter. Called exactly once per outbound packet.
    pub fn fill_header(&mut self, packet: &mut Packet)
        requires
            old(self).wf(),
            old(packet).wf(),
        ensures
            final(self).wf(),
            final(packet).wf(),
            final(packet).0@ == crate::packet::spec_header_bytes(
                old(self).seq_val(),
                old(self).ack_val(),
                old(self).bitfield_val(),
            ) + old(packet).0@.skip(HEADER_SIZE as int),
            final(packet).0@.len() == old(packet).0@.len(),
            final(self).pending() == old(self).pending().insert(
                old(self).seq_val(),
                PACKET_TIMEOUT_MS,
            ),
            final(self).seq_val() == spec_next(old(self).seq_val()),
            final(self).ack_val() == old(self).ack_val(),
            final(self).bitfield_val() == old(self).bitfield_val(),
            final(self).idle_remaining() == old(self).idle_remaining(),
    {
        let mut buf: Vec<u8> = Vec::new();
        crate::codec::push_be_bytes(&mut buf, PROTOCOL_ID);
        crate::codec::push_be_bytes(&mut buf, self.seq.0);
        crate::codec::push_be_bytes(&mut buf, self.ack.0);
        crate::codec::push_be_bytes(&mut buf, self.ack_bitfield.0);
        let payload = slice_subrange(packet.0.as_slice(), HEADER_SIZE, packet.0.len());
        buf.extend_from_slice(payload);
        proof {
            assert(buf@ =~= crate::packet::spec_header_bytes(
                self.seq.0,
                self.ack.0,
                self.ack_bitfield.0,
            ) + old(packet).0@.skip(HEADER_SIZE as int));
        }
        packet.0 = buf;

        let ghost before = self.timeouts@;
        pairs_remove(&mut self.timeouts, self.seq.0);
        let ghost removed = self.timeouts@;
        self.timeouts.push((self.seq.0, PACKET_TIMEOUT_MS));
        proof {
            lemma_pairs_map_push(removed, self.seq.0, PACKET_TIMEOUT_MS);
            assert(spec_pairs_to_map(self.timeouts@) =~= spec_pairs_to_map(before).insert(
                self.seq.0,
                PACKET_TIMEOUT_MS,
            ));
        }
        self.seq = self.seq.next();
    }

    /// Validates an inbound packet and absorbs its acknowledgements.
    ///
    /// A foreign protocol tag is rejected without touching any state. For a
    /// valid packet: a sequence number no older than the stored
    /// acknowledgement becomes the new acknowledgement and the window shifts
    /// under it; an older one, if still inside the 32-slot window below the
    /// local send counter, is recorded in the window. The packet's own
    /// acknowledgement and bitfield then clear the pending entries they
    /// confirm, and any valid traffic restores the full idle allowance.
    pub fn check(&mut self, packet: &Packet) -> (r: Result<(), NetworkError>)
        requires
            old(self).wf(),
            packet.wf(),
            packet.spec_protocol_id() == PROTOCOL_ID ==> spec_check_admissible(
                old(self).seq_val(),
                old(self).ack_val(),
                packet.spec_seq(),
            ),
        ensures
            final(self).wf(),
            packet.spec_protocol_id() != PROTOCOL_ID ==> {
                &&& r == Err::<(), NetworkError>(NetworkError::InvalidProtocolId)
                &&& *final(self) == *old(self)
            },
            packet.spec_protocol_id() == PROTOCOL_ID ==> {
                &&& r == Ok::<(), NetworkError>(())
                &&& spec_check_effects(
                    *old(self),
                    *final(self),
                    packet.spec_seq(),
                    packet.spec_ack(),
                    packet.spec_bitfield(),
                )
            },
    {
        let pid = u32_from_be_bytes(slice_subrange(packet.0.as_slice(), 0, 4));
        if pid != PROTOCOL_ID {
            return Err(NetworkError::InvalidProtocolId);
        }
        let header_seq = SeqNumber::from_bytes(slice_subrange(packet.0.as_slice(), 4, 8));
        let header_ack = SeqNumber::from_bytes(slice_subrange(packet.0.as_slice(), 8, 12));
        let header_bits = AckBitfield::from_bytes(slice_subrange(packet.0.as_slice(), 12, 16));

        match header_seq.distance_to(&self.ack) {
            Some(shifts) => {
                proof {
                    crate::seq_number::lemma_distance_bound(header_seq.0, self.ack.0);
                }
                self.ack = header_seq;
                self.ack_bitfield.shift(shifts + 1);
            },
            None => {
                match self.seq.distance_to(&header_seq) {
                    Some(diff) => {
                        if diff <= 32 {
                            self.ack_bitfield.set((32 - diff) as u8);
                        }
                    },
                    None => {
                        proof {
                            assert(false);
                        }
                    },
                }
            },
        }

        let ghost m0 = spec_pairs_to_map(old(self).timeouts@);
        pairs_remove(&mut self.timeouts, header_ack.0);
        let ghost m1 = spec_pairs_to_map(self.timeouts@);
        let ghost seq_snap = self.seq;
        let ghost ack_snap = self.ack;
        let ghost bf_snap = self.ack_bitfield;
        let ghost timer_snap = self.timeout_timer;

        let upper: u32 = header_ack.0;
        let lower: u32 = if upper >= 32 {
            upper - 32
        } else {
            0
        };
        let ghost bits = header_bits.0;
        let mut cur: u32 = lower;
        while cur < upper
            invariant
                lower == spec_ack_lower(upper),
                lower <= cur <= upper,
                upper - lower <= 32,
                bits == header_bits.0,
                header_bits.0 == packet.spec_bitfield(),
                self.seq == seq_snap,
                self.ack == ack_snap,
                self.ack_bitfield == bf_snap,
                self.timeout_timer == timer_snap,
                spec_unique_keys(self.timeouts@),
                spec_pairs_to_map(self.timeouts@) == m1.remove_keys(
                    Set::new(
                        |s: u32| lower <= s < cur && spec_bit(bits, (s - lower) as u32),
                    ),
                ),
            decreases upper - cur,
        {
            let ghost sc = Set::new(|s: u32| lower <= s < cur && spec_bit(bits, (s - lower) as u32));
            let ghost sn = Set::new(
                |s: u32| lower <= s < cur + 1 && spec_bit(bits, (s - lower) as u32),
            );
            if header_bits.get((cur - lower) as u8) {
                pairs_remove(&mut self.timeouts, cur);
                proof {
                    assert(m1.remove_keys(sc).remove(cur) =~= m1.remove_keys(sn));
                }
            } else {
                proof {
                    assert(sc =~= sn);
                }
            }
            cur += 1;
        }
        proof {
            assert(Set::new(|s: u32| lower <= s < upper && spec_bit(bits, (s - lower) as u32))
                =~= spec_acked_set(packet.spec_ack(), packet.spec_bitfield()));
        }

        self.timeout_timer = IDLE_TIMEOUT_MS;

        Ok(())
    }

    /// Lets `dt` milliseconds pass.
    ///
    /// While the idle allowance covers `dt`, both timers advance: the idle
    /// timer shrinks by `dt`, every pending entry with more than `dt` left
    /// shrinks by `dt`, and every entry whose budget `dt` brings to zero or
    /// below is dropped and reported as non-delivered (each sequence number
    /// at most once). Once `dt` outruns
    /// the idle allowance the connection is dead: nothing is touched and
    /// `None` says so, distinctly from any list of non-delivered packets.
    pub fn update(&mut self, dt: u64) -> (r: Option<NonDeliveredPackets>)
        requires
            old(self).wf(),
        ensures
            final(self).wf(),
            final(self).seq_val() == old(self).seq_val(),
            final(self).ack_val() == old(self).ack_val(),
            final(self).bitfield_val() == old(self).bitfield_val(),
            dt > old(self).idle_remaining() ==> {
                &&& r is None
                &&& final(self).idle_remaining() == old(self).idle_remaining()
                &&& final(self).pending() == old(self).pending()
            },
            dt <= old(self).idle_remaining() ==> (r matches Some(timed) && spec_update_effects(
                *old(self),
                *final(self),
                dt,
                timed@,
            )),
    {
        if dt > self.timeout_timer {
            return None;
        }
        self.timeout_timer = self.timeout_timer - dt;

        let ghost s0 = self.timeouts@;
        let mut remaining: Vec<(u32, u64)> = Vec::new();
        let mut timed_out: Vec<SeqNumber> = Vec::new();
        let mut i: usize = 0;
        while i < self.timeouts.len()
            invariant
                self.timeouts@ == s0,
                spec_unique_keys(s0),
                i <= s0.len(),
                remaining@ == spec_surviving(s0.take(i as int), dt),
                timed_out@ == spec_expired(s0.take(i as int), dt),
            decreases self.timeouts.len() - i,
        {
            let (key, left) = self.timeouts[i];
            proof {
                assert(s0.take(i + 1 as int).drop_last() =~= s0.take(i as int));
            }
            if left > dt {
                remaining.push((key, left - dt));
            } else {
                timed_out.push(SeqNumber(key));
            }
            i += 1;
        }
        proof {
            assert(s0.take(s0.len() as int) =~= s0);
            lemma_surviving_and_expired(s0, dt);
        }
        self.timeouts = remaining;
        Some(timed_out)
    }
}

/// The pairs of `s` whose budget outlasts `dt`, each with `dt` subtracted.
pub open spec fn spec_surviving(s: Seq<(u32, u64)>, dt: u64) -> Seq<(u32, u64)>
    decreases s.len(),
{
    if s.len() == 0 {
        Seq::empty()
    } else {
        let rest = spec_surviving(s.drop_last(), dt);
        if s.last().1 > dt {
            rest.push((s.last().0, (s.last().1 - dt) as u64))
        } else {
            rest
        }
    }
}

/// The sequence numbers of the pairs of `s` whose budget `dt` brings to zero
/// or below, in order.
pub open spec fn spec_expired(s: Seq<(u32, u64)>, dt: u64) -> Seq<SeqNumber>
    decreases s.len(),
{
    if s.len() == 0 {
        Seq::empty()
    } else {
        let rest = spec_expired(s.drop_last(), dt);
        if s.last().1 > dt {
            rest
        } else {
            rest.push(SeqNumber(s.last().0))
        }
    }
}

/// How one pass of the per-packet timers reads at the map level: surviving
/// entries are exactly those whose budget outlasted `dt`, now `dt` smaller;
/// expired entries are exactly the rest, each reported once.
proof fn lemma_surviving_and_expired(s: Seq<(u32, u64)>, dt: u64)
    requires
        spec_unique_keys(s),
    ensures
        spec_unique_keys(spec_surviving(s, dt)),
        forall|k: u32|
            #[trigger] spec_pairs_to_map(spec_surviving(s, dt)).contains_key(k) <==> (
            spec_pairs_to_map(s).contains_key(k) && spec_pairs_to_map(s)[k] > dt),
        forall|k: u32|
            spec_pairs_to_map(spec_surviving(s, dt)).contains_key(k) ==> spec_pairs_to_map(
                spec_surviving(s, dt),
            )[k] == spec_pairs_to_map(s)[k] - dt,
        forall|k: u32|
            #[trigger] spec_expired(s, dt).contains(SeqNumber(k)) <==> (spec_pairs_to_map(
                s,
            ).contains_key(k) && spec_pairs_to_map(s)[k] <= dt),
        forall|i: int, j: int|
            0 <= i < j < spec_expired(s, dt).len() ==> spec_expired(s, dt)[i] != spec_expired(
                s,
                dt,
            )[j],
    decreases s.len(),
{
    if s.len() == 0 {
    } else {
        let prefix = s.drop_last();
        let (k_last, v_last) = s.last();
        lemma_surviving_and_expired(prefix, dt);
        lemma_pairs_map_contains(prefix, k_last);
        assert(!spec_pairs_to_map(prefix).contains_key(k_last));
        lemma_pairs_map_contains(spec_surviving(prefix, dt), k_last);
        assert(forall|l: int|
            0 <= l < spec_surviving(prefix, dt).len() ==> spec_surviving(prefix, dt)[l].0
                != k_last);
        assert forall|k: u32| #[trigger]
            spec_pairs_to_map(spec_surviving(s, dt)).contains_key(k) implies (spec_pairs_to_map(
            s,
        ).contains_key(k) && spec_pairs_to_map(s)[k] > dt) by {
            if v_last > dt {
                lemma_pairs_map_push(spec_surviving(prefix, dt), k_last, (v_last - dt) as u64);
            }
        }
        assert forall|k: u32|
            (spec_pairs_to_map(s).contains_key(k) && spec_pairs_to_map(s)[k]
                > dt) implies #[trigger] spec_pairs_to_map(spec_surviving(s, dt)).contains_key(
            k,
        ) by {
            if v_last > dt {
                lemma_pairs_map_push(spec_surviving(prefix, dt), k_last, (v_last - dt) as u64);
            }
        }
        assert forall|k: u32| spec_pairs_to_map(spec_surviving(s, dt)).contains_key(
            k,
        ) implies spec_pairs_to_map(spec_surviving(s, dt))[k] == spec_pairs_to_map(s)[k] - dt by {
            if v_last > dt {
                lemma_pairs_map_push(spec_surviving(prefix, dt), k_last, (v_last - dt) as u64);
            }
        }
        assert forall|k: u32| #[trigger] spec_expired(s, dt).contains(SeqNumber(k)) implies (
        spec_pairs_to_map(s).contains_key(k) && spec_pairs_to_map(s)[k] <= dt) by {
            if v_last <= dt && k != k_last {
                assert(spec_expired(prefix, dt).contains(SeqNumber(k)));
            }
        }
        assert forall|k: u32|
            (spec_pairs_to_map(s).contains_key(k) && spec_pairs_to_map(s)[k]
                <= dt) implies #[trigger] spec_expired(s, dt).contains(SeqNumber(k)) by {
            if k == k_last {
                let e = spec_expired(s, dt);
                assert(e[e.len() - 1] == SeqNumber(k));
            } else {
                assert(spec_pairs_to_map(prefix).contains_key(k) && spec_pairs_to_map(prefix)[k]
                    <= dt);
                assert(spec_expired(prefix, dt).contains(SeqNumber(k)));
                let e = spec_expired(prefix, dt);
                let l = choose|l: int| 0 <= l < e.len() && e[l] == SeqNumber(k);
                assert(spec_expired(s, dt)[l] == SeqNumber(k));
            }
        }
        assert forall|i: int, j: int|
            0 <= i < j < spec_expired(s, dt).len() implies spec_expired(s, dt)[i] != spec_expired(
            s,
            dt,
        )[j] by {
            let e = spec_expired(s, dt);
            let ep = spec_expired(prefix, dt);
            if v_last <= dt && j == e.len() - 1 {
                assert(e[j] == SeqNumber(k_last));
                assert(ep.contains(e[i]) || i == ep.len());
                if i < ep.len() {
                    assert(ep[i] == e[i]);
                    assert(ep.contains(e[i]));
                    let ki = e[i].0;
                    assert(ep.contains(SeqNumber(ki)));
                    assert(spec_pairs_to_map(prefix).contains_key(ki));
                    assert(ki != k_last);
                }
            }
        }
    }
}

} // verus!
