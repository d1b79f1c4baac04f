use battle_arena_2000::ack_bitfield::AckBitfield;
use battle_arena_2000::packet::{Packet, PacketHeader, HEADER_SIZE, MAX_PACKET_SIZE};
use battle_arena_2000::seq_number::SeqNumber;

#[test]
fn header_serde() {
    // Writing a header and reading it back returns exactly the inputs, for
    // a spread of triples including the extremes.
    let triples = [
        (0u32, 0u32, 0u32),
        (1, 2, 3),
        (u32::MAX, u32::MAX, u32::MAX),
        (0xdead_beef, 0x8000_0000, 0x0102_0304),
        (42, u32::MAX - 3, 0x5555_5555),
    ];
    for (seq, ack, ack_bitfield) in triples {
        let mut header = PacketHeader(vec![0u8; 4 * 4]);
        header.set(SeqNumber(seq), SeqNumber(ack), AckBitfield(ack_bitfield));

        assert_eq!(header.seq(), SeqNumber(seq));
        assert_eq!(header.ack(), SeqNumber(ack));
        assert_eq!(header.ack_bitfield(), AckBitfield(ack_bitfield));
        assert_eq!(header.protocol_id(), 0x0001_0203);
    }
}

#[test]
fn header_wire_layout() {
    let mut header = PacketHeader(vec![0u8; 16]);
    header.set(
        SeqNumber(0x0a0b_0c0d),
        SeqNumber(0x1112_1314),
        AckBitfield(0x2122_2324),
    );
    assert_eq!(
        header.0,
        vec![
            0x00, 0x01, 0x02, 0x03, // protocol id
            0x0a, 0x0b, 0x0c, 0x0d, // seq
            0x11, 0x12, 0x13, 0x14, // ack
            0x21, 0x22, 0x23, 0x24, // ack bitfield
        ]
    );
    assert_eq!(PacketHeader::len(), HEADER_SIZE);
}

#[test]
fn packet_regions() {
    let mut packet = Packet::new_boxed(3);
    assert_eq!(packet.0.len(), 3 + HEADER_SIZE);
    assert!(packet.0.iter().all(|b| *b == 0));

    packet.payload_mut(&[7, 8, 9]);
    assert_eq!(packet.payload(), &[7, 8, 9]);

    let header = packet.header();
    assert_eq!(header.0, vec![0u8; HEADER_SIZE]);

    let bytes = packet.into_inner();
    assert_eq!(bytes.len(), 3 + HEADER_SIZE);
    assert_eq!(&bytes[HEADER_SIZE..], &[7, 8, 9]);
}

#[test]
fn max_packet_size_is_mtu_minus_headers() {
    assert_eq!(MAX_PACKET_SIZE, 1472);
    let packet = Packet::new_boxed(MAX_PACKET_SIZE - HEADER_SIZE);
    assert_eq!(packet.0.len(), MAX_PACKET_SIZE);
}
