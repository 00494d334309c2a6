use snake_multiplayer::packet::{PacketBuilder, PacketError, PacketType, ReadablePacket};

#[test]
fn readable_packet() {
    let mock_packet = [0x1, 0x2, 0x3, 0x4];

    let mut packet = ReadablePacket::from_bytes(&mock_packet).unwrap();

    assert!(packet.packet_type() == PacketType::Info);
    assert_eq!(packet.read(), 0x2);
    assert_eq!(packet.remaining(), 2);
    assert_eq!(packet.read_u16_le(), 1027);
}

#[test]
fn packet_builder() {
    let mut packet = PacketBuilder::new(PacketType::Info);

    packet.write(0x3);
    packet.write_u16_le(8);

    let packet = packet.build();

    assert_eq!(packet, vec![4, 0, 0x1, 0x3, 8, 0]);
}

#[test]
fn packet_type_codes_are_one_to_seven() {
    let kinds = [
        PacketType::Info,
        PacketType::FoodUpdate,
        PacketType::DirectionUpdate,
        PacketType::HeadUpdate,
        PacketType::SnakeConnect,
        PacketType::SnakeDisconnect,
        PacketType::ConnRejected,
    ];
    for (i, kind) in kinds.iter().enumerate() {
        assert_eq!(kind.code(), (i + 1) as u8);
        assert_eq!(PacketType::from_code((i + 1) as u8), Some(*kind));
    }
    assert_eq!(PacketType::from_code(0), None);
    assert_eq!(PacketType::from_code(8), None);
    assert_eq!(PacketType::from_code(0xFF), None);
}

#[test]
fn readable_packet_rejects_unknown_type() {
    assert!(matches!(ReadablePacket::from_bytes(&[0x9, 1, 2]), Err(PacketError::UnknownType(0x9))));
    assert!(matches!(ReadablePacket::from_bytes(&[0x0]), Err(PacketError::UnknownType(0))));
}

#[test]
fn readable_packet_rejects_empty_body() {
    assert!(matches!(ReadablePacket::from_bytes(&[]), Err(PacketError::Empty)));
}

#[test]
fn readable_packet_keeps_payload_behind_type_byte() {
    let packet = ReadablePacket::from_bytes(&[0x7]).unwrap();
    assert!(packet.packet_type() == PacketType::ConnRejected);
    assert_eq!(packet.remaining(), 0);
    assert!(packet.buffer().is_empty());

    let mut packet = ReadablePacket::from_bytes(&[0x4, 9, 8, 7]).unwrap();
    assert_eq!(packet.buffer(), &vec![9, 8, 7]);
    assert_eq!(packet.remaining(), 3);
    assert_eq!(packet.read(), 9);
    assert_eq!(packet.read(), 8);
    assert_eq!(packet.read(), 7);
    assert_eq!(packet.remaining(), 0);
    assert_eq!(packet.buffer(), &vec![9, 8, 7]);
}

#[test]
fn read_u16_le_is_little_endian() {
    let mut packet = ReadablePacket::from_bytes(&[0x1, 0x34, 0x12, 0xFF, 0xFF, 0, 0]).unwrap();
    assert_eq!(packet.read_u16_le(), 0x1234);
    assert_eq!(packet.read_u16_le(), 0xFFFF);
    assert_eq!(packet.read_u16_le(), 0);
    assert_eq!(packet.remaining(), 0);
}

#[test]
fn write_u16_le_is_little_endian() {
    let mut packet = PacketBuilder::with_capacity(PacketType::SnakeConnect, 4);
    packet.write_u16_le(0x1234);
    packet.write_u16_le(0xFFFF);
    assert_eq!(packet.len(), 4);
    assert_eq!(packet.build(), vec![5, 0, 0x5, 0x34, 0x12, 0xFF, 0xFF]);
}

#[test]
fn empty_payload_builds_three_bytes() {
    let packet = PacketBuilder::new(PacketType::ConnRejected);
    assert_eq!(packet.build(), vec![0x01, 0x00, 0x07]);
}

#[test]
fn length_prefix_counts_type_byte_and_payload() {
    let mut packet = PacketBuilder::with_capacity(PacketType::HeadUpdate, 300);
    for i in 0..300u32 {
        packet.write((i % 251) as u8);
    }
    let bytes = packet.build();
    assert_eq!(bytes.len(), 303);
    assert_eq!(bytes[0], (301 % 256) as u8);
    assert_eq!(bytes[1], (301 / 256) as u8);
    assert_eq!(bytes[2], 0x4);
    assert_eq!(bytes[3], 0);
    assert_eq!(bytes[302], (299 % 251) as u8);
}

#[test]
fn length_prefix_wraps_at_sixteen_bits() {
    let mut packet = PacketBuilder::with_capacity(PacketType::Info, usize::MAX);
    for _ in 0..65535u32 {
        packet.write(1);
    }
    let bytes = packet.build();
    assert_eq!(bytes.len(), 65538);
    assert_eq!(&bytes[..3], &[0, 0, 1]);
}

#[test]
fn builder_output_is_read_back() {
    let mut builder = PacketBuilder::new(PacketType::FoodUpdate);
    builder.write(7);
    builder.write_u16_le(515);
    let bytes = builder.build();
    let mut packet = ReadablePacket::from_bytes(&bytes[2..]).unwrap();
    assert!(packet.packet_type() == PacketType::FoodUpdate);
    assert_eq!(packet.remaining(), 3);
    assert_eq!(packet.read(), 7);
    assert_eq!(packet.read_u16_le(), 515);
}
