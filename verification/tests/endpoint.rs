use battle_arena_2000::endpoint::Endpoint;
use battle_arena_2000::packet::{NetworkError, Packet, HEADER_SIZE, MAX_PACKET_SIZE};
use battle_arena_2000::seq_number::SeqNumber;
use battle_arena_2000::PlayerCommand;

#[test]
fn flush_stamps_in_enqueue_order() {
    let mut endpoint = Endpoint::new();
    for payload in [b"one", b"two", b"six"] {
        let mut packet = Packet::new_boxed(3);
        packet.payload_mut(payload);
        endpoint.enqueue(packet).unwrap();
    }

    let sent = endpoint.flush();
    assert_eq!(sent.len(), 3);
    for (i, packet) in sent.iter().enumerate() {
        assert_eq!(packet.header().seq(), SeqNumber(i as u32));
    }
    assert_eq!(sent[0].payload(), b"one");
    assert_eq!(sent[1].payload(), b"two");
    assert_eq!(sent[2].payload(), b"six");

    // A second flush finds an empty outbox and sends nothing.
    assert_eq!(endpoint.flush().len(), 0);

    // The next enqueued packet continues the sequence.
    endpoint.enqueue(Packet::new_boxed(0)).unwrap();
    let sent = endpoint.flush();
    assert_eq!(sent.len(), 1);
    assert_eq!(sent[0].header().seq(), SeqNumber(3));
}

#[test]
fn enqueue_refuses_oversized_packets() {
    let mut endpoint = Endpoint::new();
    let oversized = Packet(vec![0u8; MAX_PACKET_SIZE + 1]);
    assert_eq!(endpoint.enqueue(oversized), Err(NetworkError::PacketTooLarge));
    assert_eq!(endpoint.flush().len(), 0);

    let just_fits = Packet(vec![0u8; MAX_PACKET_SIZE]);
    assert_eq!(endpoint.enqueue(just_fits), Ok(()));
    assert_eq!(endpoint.flush().len(), 1);
}

#[test]
fn accept_rejects_foreign_traffic() {
    let mut endpoint = Endpoint::new();
    let mut bytes = vec![0u8; HEADER_SIZE];
    bytes[0] = 0x7f;
    match endpoint.accept(bytes) {
        Err(NetworkError::InvalidProtocolId) => (),
        other => panic!("expected a protocol id rejection, got {:?}", other.map(|p| p.0)),
    }
}

#[test]
fn endpoints_exchange_a_command() {
    // One packet each way between two endpoints, carrying a command payload;
    // both sides then confirm everything they heard about.
    let mut a = Endpoint::new();
    let mut b = Endpoint::new();

    let cmd = PlayerCommand::Shoot;
    let mut packet = Packet::new_boxed(3);
    packet.payload_mut(&cmd.to_bytes());
    a.enqueue(packet).unwrap();
    let wire = a.flush();
    assert_eq!(wire.len(), 1);

    let received = b.accept(wire.into_iter().next().unwrap().into_inner()).unwrap();
    assert_eq!(PlayerCommand::from_bytes(received.payload()), Some(cmd));

    b.enqueue(Packet::new_boxed(0)).unwrap();
    let wire = b.flush();
    a.accept(wire.into_iter().next().unwrap().into_inner()).unwrap();

    // A's packet was acknowledged by B's reply; B's own packet never was.
    assert!(a.update(2_000).unwrap().is_empty());
    assert_eq!(b.update(2_000).unwrap(), vec![SeqNumber(0)]);

    // With no further traffic both connections eventually report idle death.
    assert!(a.update(20_000).is_none());
    assert!(b.update(20_000).is_none());
}
