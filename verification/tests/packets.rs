use space_battle::net::{InPacket, OutPacket, PacketId, ProtocolError};

#[test]
fn bool_is_one_byte() {
    let mut packet = OutPacket::new();
    packet.write_bool(true);
    packet.write_bool(false);
    assert_eq!(packet.len(), 2);
    assert_eq!(packet.into_bytes(), vec![1, 0]);
}

#[test]
fn u32_is_least_significant_byte_first() {
    let mut packet = OutPacket::new();
    packet.write_u32(0x0102_0304);
    assert_eq!(packet.into_bytes(), vec![4, 3, 2, 1]);
}

#[test]
fn u64_is_least_significant_byte_first() {
    let mut packet = OutPacket::new();
    packet.write_u64(0x0102_0304_0506_0708);
    assert_eq!(packet.into_bytes(), vec![8, 7, 6, 5, 4, 3, 2, 1]);
}

#[test]
fn extreme_numbers_survive_the_wire() {
    let mut out = OutPacket::new();
    out.write_u32(u32::MAX);
    out.write_u64(u64::MAX);
    out.write_u32(0);
    out.write_u64(0);
    out.write_u64(1 << 32);
    let mut packet = InPacket::new(out.into_bytes());
    assert_eq!(packet.read_u32(), Ok(u32::MAX));
    assert_eq!(packet.read_u64(), Ok(u64::MAX));
    assert_eq!(packet.read_u32(), Ok(0));
    assert_eq!(packet.read_u64(), Ok(0));
    assert_eq!(packet.read_u64(), Ok(1 << 32));
    assert_eq!(packet.remaining(), 0);
}

#[test]
fn tags_are_zero_and_one() {
    let mut packet = OutPacket::new();
    packet.write_id(PacketId::Plan);
    packet.write_id(PacketId::SimResults);
    assert_eq!(packet.into_bytes(), vec![0, 1]);
}

#[test]
fn values_are_read_in_the_order_written() {
    let mut out = OutPacket::new();
    out.write_id(PacketId::SimResults);
    out.write_bool(true);
    out.write_u64(77);
    out.write_u32(5);
    let mut packet = InPacket::new(out.into_bytes());
    assert_eq!(packet.read_id(), Ok(PacketId::SimResults));
    assert_eq!(packet.read_bool(), Ok(true));
    assert_eq!(packet.read_u64(), Ok(77));
    assert_eq!(packet.read_u32(), Ok(5));
    assert_eq!(packet.read_bool(), Err(ProtocolError::Truncated));
}

#[test]
fn a_short_number_is_truncated_and_nothing_is_consumed() {
    let mut packet = InPacket::new(vec![1, 2, 3]);
    assert_eq!(packet.read_u32(), Err(ProtocolError::Truncated));
    assert_eq!(packet.read_u64(), Err(ProtocolError::Truncated));
    assert_eq!(packet.remaining(), 3);
    assert_eq!(packet.read_bool(), Ok(true));
    assert_eq!(packet.remaining(), 2);
}

#[test]
fn a_bool_must_be_zero_or_one() {
    let mut packet = InPacket::new(vec![2]);
    assert_eq!(packet.read_bool(), Err(ProtocolError::InvalidValue));
    assert_eq!(packet.remaining(), 1);
}

#[test]
fn an_unknown_tag_is_invalid() {
    let mut packet = InPacket::new(vec![9]);
    assert_eq!(packet.read_id(), Err(ProtocolError::InvalidValue));
    let mut empty = InPacket::new(vec![]);
    assert_eq!(empty.read_id(), Err(ProtocolError::Truncated));
}

#[test]
fn the_wrong_tag_is_unexpected() {
    let mut packet = InPacket::new(vec![0, 1]);
    assert_eq!(packet.expect_id(PacketId::SimResults), Err(ProtocolError::UnexpectedTag));
    assert_eq!(packet.remaining(), 2);
    assert_eq!(packet.expect_id(PacketId::Plan), Ok(()));
    assert_eq!(packet.expect_id(PacketId::SimResults), Ok(()));
    assert_eq!(packet.expect_id(PacketId::Plan), Err(ProtocolError::Truncated));
}

#[test]
fn reset_goes_back_to_the_mark() {
    let mut packet = InPacket::new(vec![1, 0, 1]);
    assert_eq!(packet.read_bool(), Ok(true));
    let mark = packet.mark();
    assert_eq!(packet.read_bool(), Ok(false));
    assert_eq!(packet.read_bool(), Ok(true));
    packet.reset(mark);
    assert_eq!(packet.remaining(), 2);
    assert_eq!(packet.read_bool(), Ok(false));
}
