use minecraft_packet::{htonl, htons, try_read_varint};

#[test]
fn htons_swaps_bytes() {
    assert_eq!(htons(0x1234), 0x3412);
    assert_eq!(htons(htons(0xBEEF)), 0xBEEF);
}

#[test]
fn htonl_reverses_bytes() {
    assert_eq!(htonl(0x1234_5678), 0x7856_3412);
    assert_eq!(htonl(htonl(0xDEAD_BEEF)), 0xDEAD_BEEF);
}

#[test]
fn one_byte_varint() {
    assert_eq!(try_read_varint(&[0x05]), Some(5));
    assert_eq!(try_read_varint(&[0x7f, 0xff, 0xff]), Some(0x7f));
}

#[test]
fn varint_digits_most_significant_first() {
    assert_eq!(try_read_varint(&[0x81, 0x00]), Some(128));
    assert_eq!(try_read_varint(&[0x80, 0x01]), Some(1));
    assert_eq!(try_read_varint(&[0x81, 0x80, 0x80, 0x80, 0x80, 0x00]), Some(1u64 << 35));
}

#[test]
fn varint_needs_a_terminator_within_six_bytes() {
    assert_eq!(try_read_varint(&[]), None);
    assert_eq!(try_read_varint(&[0x80, 0x80]), None);
    assert_eq!(try_read_varint(&[0x80, 0x80, 0x80, 0x80, 0x80, 0x80, 0x00]), None);
}

#[test]
fn varint_ignores_what_follows() {
    assert_eq!(try_read_varint(&[0x82, 0x03, 0xff, 0x80]), try_read_varint(&[0x82, 0x03]));
}

#[test]
fn send_header_of_a_short_packet_reads_back() {
    let mut out = Vec::new();
    let pkt = minecraft_packet::MinecraftPacket::new_disconnect_packet(&minecraft_packet::Chat::new())
        .unwrap();
    minecraft_packet::MinecraftPacket::send(&mut out, pkt).unwrap();
    assert_eq!(try_read_varint(&out), Some((out.len() - 1) as u64));
}
