use battle_arena_2000::connection::{packet_timeout, timeout, Connection};
use battle_arena_2000::packet::{NetworkError, Packet};
use battle_arena_2000::seq_number::SeqNumber;

const ONE_SECOND_MS: u64 = 1_000;

#[test]
fn test_connection_one_roundtrip() {
    let mut client_connection = Connection::new();
    let mut server_connection = Connection::new();

    let mut msg1 = Packet::new_boxed(0);
    client_connection.fill_header(&mut msg1);
    server_connection.check(&msg1).unwrap();

    let mut msg2 = Packet::new_boxed(0);
    server_connection.fill_header(&mut msg2);
    client_connection.check(&msg2).unwrap();

    {
        let timed_out = client_connection
            .update(packet_timeout() + ONE_SECOND_MS)
            .unwrap();
        assert!(timed_out.is_empty());
    }
    {
        let timed_out = server_connection
            .update(packet_timeout() + ONE_SECOND_MS)
            .unwrap();
        assert_eq!(timed_out.len(), 1);
    }
}

#[test]
fn test_connection_skip_one() {
    let mut client_connection = Connection::new();
    let mut server_connection = Connection::new();

    let mut msg1 = Packet::new_boxed(0);
    client_connection.fill_header(&mut msg1);
    server_connection.check(&msg1).unwrap();

    let mut msg2 = Packet::new_boxed(0);
    server_connection.fill_header(&mut msg2);

    let mut msg3 = Packet::new_boxed(0);
    server_connection.fill_header(&mut msg3);
    client_connection.check(&msg3).unwrap();

    {
        let timed_out = client_connection
            .update(packet_timeout() + ONE_SECOND_MS)
            .unwrap();
        assert!(timed_out.is_empty());
    }
    {
        let timed_out = server_connection
            .update(packet_timeout() + ONE_SECOND_MS)
            .unwrap();
        assert_eq!(timed_out.len(), 2);
    }
}

#[test]
fn test_connection_timed_out() {
    let mut connection = Connection::new();

    let after = connection.update(timeout() + 11 * ONE_SECOND_MS);
    assert!(after.is_none());
}

#[test]
fn test_seq_number_distance() {
    let zero = SeqNumber(0);
    let high = SeqNumber(u32::MAX - 3);

    assert_eq!(zero.distance_to(&high), None);
    assert_eq!(high.distance_to(&zero), Some(4));
}

#[test]
fn seq_number_next_is_one_ahead() {
    for raw in [0u32, 1, 7, u32::MAX - 1] {
        let a = SeqNumber(raw);
        assert_eq!(a.next().distance_to(&a), Some(1));
    }
    // Stepping off the very top of the range lands below everything in the
    // raw order, where the comparison reports no distance.
    let top = SeqNumber(u32::MAX);
    assert_eq!(top.next(), SeqNumber(0));
    assert_eq!(top.next().distance_to(&top), None);
}

#[test]
fn seq_number_distance_at_half_range() {
    // Exactly half the number space apart, the direction is settled by the
    // raw order: the larger number reports the wrapped distance, the smaller
    // reports none.
    let half = SeqNumber(0x8000_0000);
    let zero = SeqNumber(0);
    assert_eq!(half.distance_to(&zero), Some(0x8000_0000));
    assert_eq!(zero.distance_to(&half), None);

    // One short of half the range still counts as an unwrapped gap.
    let below = SeqNumber(0x7fff_ffff);
    assert_eq!(below.distance_to(&zero), Some(0x7fff_ffff));
    assert_eq!(zero.distance_to(&below), None);
}

#[test]
fn seq_number_byte_round_trip() {
    for raw in [0u32, 1, 0xdead_beef, u32::MAX] {
        let n = SeqNumber(raw);
        let bytes = n.to_bytes();
        assert_eq!(SeqNumber::from_bytes(&bytes), n);
    }
    assert_eq!(SeqNumber(0x0102_0304).to_bytes(), [1, 2, 3, 4]);
}

#[test]
fn check_rejects_foreign_protocol_id() {
    let mut connection = Connection::new();
    let mut bytes = vec![0u8; 16];
    bytes[0] = 0xff;
    let packet = Packet(bytes);
    assert_eq!(connection.check(&packet), Err(NetworkError::InvalidProtocolId));

    // The rejected packet left no trace: a fresh connection still reports
    // nothing pending and no idle timeout.
    let timed_out = connection.update(ONE_SECOND_MS).unwrap();
    assert!(timed_out.is_empty());
}

#[test]
fn budget_equal_to_elapsed_time_expires() {
    // An entry whose confirmation budget exactly equals the elapsed time
    // reaches zero and is reported, not kept alive at zero.
    let mut connection = Connection::new();
    let mut msg = Packet::new_boxed(0);
    connection.fill_header(&mut msg);

    let timed_out = connection.update(packet_timeout()).unwrap();
    assert_eq!(timed_out, vec![SeqNumber(0)]);

    // And it is gone: a later tick reports nothing further.
    let timed_out = connection.update(packet_timeout()).unwrap();
    assert!(timed_out.is_empty());
}

#[test]
fn idle_timeout_is_distinct_from_non_delivery() {
    // A connection with one unconfirmed packet and no inbound traffic: while
    // the idle allowance lasts, updates report the packet as non-delivered;
    // past the allowance they report the connection itself as dead.
    let mut connection = Connection::new();
    let mut msg = Packet::new_boxed(0);
    connection.fill_header(&mut msg);

    let timed_out = connection.update(2 * ONE_SECOND_MS).unwrap();
    assert_eq!(timed_out, vec![SeqNumber(0)]);

    let after = connection.update(9 * ONE_SECOND_MS);
    assert!(after.is_none());
}

#[test]
fn exchange_confirms_delivery() {
    // A sends, B acknowledges, A hears the acknowledgement: nothing on A's
    // side may time out afterwards.
    let mut a = Connection::new();
    let mut b = Connection::new();

    let mut msg1 = Packet::new_boxed(0);
    a.fill_header(&mut msg1);
    b.check(&msg1).unwrap();

    let mut msg2 = Packet::new_boxed(0);
    b.fill_header(&mut msg2);
    a.check(&msg2).unwrap();

    let timed_out = a.update(10 * ONE_SECOND_MS).unwrap();
    assert!(timed_out.is_empty());
    let timed_out = b.update(10 * ONE_SECOND_MS).unwrap();
    assert_eq!(timed_out, vec![SeqNumber(0)]);
}
