use minecraft_packet::parse::{parse_varint_usize, read_utf_string, Parsed};
use minecraft_packet::{
    Chat, ChatColor, ChatComponent, ClientboundPacket, MinecraftPacket, MinecraftPacketWriter,
};

const EMPTY_CHAT_JSON: &str = "{\"translate\":\"\",\"with\":[]}";

#[test]
fn disconnect_packet_is_framed() {
    let pkt = MinecraftPacket::new_disconnect_packet(&Chat::new()).unwrap();
    let mut out = Vec::new();
    MinecraftPacket::send(&mut out, pkt).unwrap();
    let json = EMPTY_CHAT_JSON.as_bytes();
    let mut expected = vec![(2 + json.len()) as u8, 0x00, json.len() as u8];
    expected.extend_from_slice(json);
    assert_eq!(out, expected);
}

#[test]
fn send_appends_to_what_is_there() {
    let pkt = MinecraftPacket::new_disconnect_packet(&Chat::new()).unwrap();
    let mut out = vec![0xAA];
    MinecraftPacket::send(&mut out, pkt).unwrap();
    assert_eq!(out[0], 0xAA);
    assert_eq!(out[1] as usize, out.len() - 2);
}

#[test]
fn long_disconnect_packet_has_a_two_byte_length() {
    let message = Chat::new().append(ChatComponent {
        bold: false,
        italic: false,
        underlined: false,
        strikethrough: false,
        obfuscated: true,
        color: ChatColor::BrightGreen,
        message: "ooo ".to_owned(),
    });
    let json = message.to_string();
    let pkt = MinecraftPacket::new_disconnect_packet(&message).unwrap();
    let mut out = Vec::new();
    MinecraftPacket::send(&mut out, pkt).unwrap();
    let body_len = 1 + 2 + json.len();
    assert!(body_len >= 128);
    assert_eq!(out[0] as usize, (body_len % 128) + 128);
    assert_eq!(out[1] as usize, body_len / 128);
    assert_eq!(out[2], 0x00);
    assert_eq!(out[3] as usize, (json.len() % 128) + 128);
    assert_eq!(out[4] as usize, json.len() / 128);
    assert_eq!(&out[5..], json.as_bytes());
}

#[test]
fn writer_sends_disconnect_without_a_string_length() {
    let mut w = MinecraftPacketWriter::new(Vec::new());
    w.send_disconnect(&Chat::new());
    let json = EMPTY_CHAT_JSON.as_bytes();
    let mut expected = vec![(1 + json.len()) as u8, 0x00];
    expected.extend_from_slice(json);
    assert_eq!(w.get_ref(), &expected);
}

#[test]
fn clientbound_packet_ids() {
    assert_eq!(u16::from(ClientboundPacket::StatusResponse), 0);
    assert_eq!(u16::from(ClientboundPacket::Pong { payload: 7 }), 1);
    assert_eq!(u16::from(ClientboundPacket::Disconnect), 0);
    assert_eq!(u16::from(ClientboundPacket::EncryptionRequest), 1);
    assert_eq!(u16::from(ClientboundPacket::LoginSuccess), 2);
    let mut p = ClientboundPacket::LoginSuccess;
    assert_eq!(p.packet_id(), 2);
}

#[test]
fn disconnect_reason_reads_back_as_a_string_field() {
    let message = Chat::new().append(ChatComponent {
        bold: true,
        italic: false,
        underlined: false,
        strikethrough: false,
        obfuscated: false,
        color: ChatColor::Gold,
        message: "Bye".to_owned(),
    });
    let json = message.to_string();
    let pkt = MinecraftPacket::new_disconnect_packet(&message).unwrap();
    let mut out = Vec::new();
    MinecraftPacket::send(&mut out, pkt).unwrap();
    match parse_varint_usize(&out, false) {
        Parsed::Done(Ok(len), n) => {
            assert_eq!(n, 2);
            assert_eq!(len, out.len() - 2);
        }
        _ => panic!("no length header"),
    }
    match read_utf_string(&out[3..], false, 1020) {
        Parsed::Done(Ok(text), n) => {
            assert_eq!(text, json);
            assert_eq!(n, out.len() - 3);
        }
        _ => panic!("no string field"),
    }
}
