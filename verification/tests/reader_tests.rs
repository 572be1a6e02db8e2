use minecraft_packet::parse::{read_utf16_string, read_utf_string, Parsed};
use minecraft_packet::{
    MinecraftPacketReader, MinecraftStringError, ReadError, ReadStep, ServerState,
    ServerboundPacket,
};

fn reader_with(state: ServerState, bytes: &[u8], ended: bool) -> MinecraftPacketReader<()> {
    let mut r = MinecraftPacketReader::new(()).unwrap();
    r.set_state(state);
    r.receive(bytes);
    if ended {
        r.end_of_stream();
    }
    r
}

fn framed(body: &[u8]) -> Vec<u8> {
    assert!(body.len() < 128);
    let mut v = vec![body.len() as u8];
    v.extend_from_slice(body);
    v
}

fn handshake_body() -> Vec<u8> {
    // identifier 0, protocol 754, "localhost", port bytes 0x63 0xDD, next state 2
    let mut b = vec![0x00, 0xF2, 0x05, 9];
    b.extend_from_slice(b"localhost");
    b.extend_from_slice(&[0x63, 0xDD, 0x02]);
    b
}

fn utf16_be(s: &str) -> Vec<u8> {
    s.encode_utf16().flat_map(|u| u.to_be_bytes()).collect()
}

#[test]
fn reads_a_handshake() {
    let mut r = reader_with(ServerState::Waiting, &framed(&handshake_body()), false);
    assert!(r.next_is_supported());
    match r.next() {
        ReadStep::Ready(Some(ServerboundPacket::SetState {
            protocol_version,
            server_address,
            server_port,
            next_state,
        })) => {
            assert_eq!(protocol_version, 754);
            assert_eq!(server_address, "localhost");
            assert_eq!(server_port, 0xDD63);
            assert_eq!(next_state, ServerState::Login);
        }
        other => panic!("unexpected {:?}", matches!(other, ReadStep::NeedMore)),
    }
    assert!(matches!(r.next(), ReadStep::NeedMore));
}

#[test]
fn waits_for_the_rest_of_a_packet() {
    let bytes = framed(&handshake_body());
    let mut r = reader_with(ServerState::Waiting, &bytes[..6], false);
    assert!(matches!(r.next(), ReadStep::NeedMore));
    r.receive(&bytes[6..]);
    assert!(matches!(r.next(), ReadStep::Ready(Some(ServerboundPacket::SetState { .. }))));
}

#[test]
fn handshake_with_another_state_is_unsupported() {
    let mut body = handshake_body();
    let last = body.len() - 1;
    body[last] = 3;
    let r = reader_with(ServerState::Waiting, &framed(&body), false);
    assert!(!r.next_is_supported());
}

#[test]
fn handshake_with_bad_address_is_unsupported() {
    let body = vec![0x00, 0x01, 2, 0xC3, 0x28, 0x00, 0x00, 0x01];
    let r = reader_with(ServerState::Waiting, &framed(&body), false);
    assert!(!r.next_is_supported());
}

#[test]
fn reads_login_start() {
    let mut body = vec![0x00, 5];
    body.extend_from_slice(b"Alice");
    let mut r = reader_with(ServerState::Login, &framed(&body), false);
    match r.next() {
        ReadStep::Ready(Some(ServerboundPacket::StartLogin { username })) => {
            assert_eq!(username, "Alice")
        }
        _ => panic!("no login start"),
    }
}

#[test]
fn reads_encryption_response() {
    let body = vec![0x01, 2, 1, 2, 1, 9];
    let mut r = reader_with(ServerState::Login, &framed(&body), false);
    match r.next() {
        ReadStep::Ready(Some(ServerboundPacket::EncryptionResponse {
            shared_secret,
            verify_token,
        })) => {
            assert_eq!(shared_secret, vec![1, 2]);
            assert_eq!(verify_token, vec![9]);
        }
        _ => panic!("no encryption response"),
    }
}

#[test]
fn encryption_response_takes_fewer_bytes_at_the_end_of_the_stream() {
    let body = vec![0x01, 5, 1, 2];
    let mut r = reader_with(ServerState::Login, &framed(&body), true);
    assert!(matches!(r.next(), ReadStep::Ready(None)));
}

#[test]
fn login_plugin_response_is_unsupported() {
    let r = reader_with(ServerState::Login, &framed(&[0x02]), false);
    assert!(!r.next_is_supported());
}

#[test]
fn reads_ping() {
    let mut body = vec![0x01];
    body.extend_from_slice(&(-5i64).to_le_bytes());
    let mut r = reader_with(ServerState::Status, &framed(&body), false);
    match r.next() {
        ReadStep::Ready(Some(ServerboundPacket::Ping { payload })) => assert_eq!(payload, -5),
        _ => panic!("no ping"),
    }
}

#[test]
fn status_request_and_play_are_unsupported() {
    let r = reader_with(ServerState::Status, &framed(&[0x00]), false);
    assert!(!r.next_is_supported());
    let r = reader_with(ServerState::Play, &framed(&[0x00]), false);
    assert!(!r.next_is_supported());
}

#[test]
fn unknown_identifier_gives_nothing() {
    let mut r = reader_with(ServerState::Login, &framed(&[0x07, 1, 2]), false);
    assert!(matches!(r.next(), ReadStep::Ready(None)));
    let mut r = reader_with(ServerState::Waiting, &[0x0c, 0x05, 1, 2, 3], false);
    assert!(matches!(r.next(), ReadStep::Ready(None)));
    assert!(matches!(r.next(), ReadStep::NeedMore));
}

#[test]
fn long_length_header_is_skipped() {
    let mut body = vec![0x00, 5];
    body.extend_from_slice(b"Alice");
    let mut bytes = vec![0x80 | body.len() as u8, 0x00];
    bytes.extend_from_slice(&body);
    let mut r = reader_with(ServerState::Login, &bytes, false);
    assert!(matches!(r.next(), ReadStep::Ready(Some(ServerboundPacket::StartLogin { .. }))));
}

#[test]
fn ended_stream_gives_nothing() {
    let mut r = reader_with(ServerState::Login, &[], true);
    assert!(matches!(r.next(), ReadStep::Ready(None)));
}

#[test]
fn overlong_identifier_gives_nothing() {
    let mut r = reader_with(ServerState::Login, &[0x10, 0x80, 0x80, 0x80, 0x80, 0x80, 0x01], false);
    assert!(matches!(r.next(), ReadStep::Ready(None)));
}

fn classic_ping(payload: u8) -> Vec<u8> {
    let mut b = vec![0xFE, payload, 0xFA, 0x00, 0x0B];
    b.extend_from_slice(&utf16_be("MC|PingHost"));
    b.extend_from_slice(&[0x00, 0x07, 0x4A, 0x00, 0x09]);
    b.extend_from_slice(&utf16_be("localhost"));
    b.extend_from_slice(&[0x00, 0x00, 0x63, 0xDD]);
    b
}

#[test]
fn reads_classic_ping() {
    let mut r = reader_with(ServerState::Waiting, &classic_ping(1), false);
    match r.next() {
        ReadStep::Ready(Some(ServerboundPacket::ClassicPing {
            protocol_version,
            hostname,
            server_port,
        })) => {
            assert_eq!(protocol_version, 0x4A);
            assert_eq!(hostname, "localhost");
            assert_eq!(server_port, 25565);
        }
        _ => panic!("no classic ping"),
    }
}

#[test]
fn classic_ping_with_wrong_payload_fails() {
    let bytes = classic_ping(2);
    let mut r = reader_with(ServerState::Waiting, &bytes[1..], false);
    match r.read_classic_ping_packet() {
        ReadStep::Ready(Err(e)) => assert_eq!(e, ReadError::InvalidData),
        _ => panic!("expected an error"),
    }
}

#[test]
fn read_ping_at_end_of_stream_fails() {
    let mut r = reader_with(ServerState::Status, &[1, 2, 3], true);
    match r.read_ping_packet() {
        ReadStep::Ready(Err(e)) => assert_eq!(e, ReadError::UnexpectedEof),
        _ => panic!("expected an error"),
    }
}

#[test]
fn utf_string_is_cut_at_the_limit() {
    let bytes = [5, b'H', b'e', b'l', b'l', b'o'];
    match read_utf_string(&bytes, false, 3) {
        Parsed::Done(Ok(s), n) => {
            assert_eq!(s, "Hel");
            assert_eq!(n, 4);
        }
        _ => panic!("expected a string"),
    }
}

#[test]
fn invalid_utf8_is_an_error() {
    let bytes = [2, 0xC3, 0x28];
    assert!(matches!(
        read_utf_string(&bytes, false, 10),
        Parsed::Done(Err(MinecraftStringError::FromUtf8Error(_)), 3)
    ));
}

#[test]
fn utf16_string_reads_pairs() {
    let bytes = utf16_be("hé");
    match read_utf16_string(&bytes, false, 4) {
        Parsed::Done(Ok(s), 4) => assert_eq!(s, "hé"),
        _ => panic!("expected a string"),
    }
    let lone = [0xD8, 0x00];
    assert!(matches!(
        read_utf16_string(&lone, false, 2),
        Parsed::Done(Err(MinecraftStringError::FromUtf16Error(_)), 2)
    ));
}

#[test]
fn classic_ping_is_read_in_any_state() {
    let mut r = reader_with(ServerState::Login, &classic_ping(1), false);
    assert!(matches!(r.next(), ReadStep::Ready(Some(ServerboundPacket::ClassicPing { .. }))));
}

#[test]
fn packet_body_checks_tell_unsupported_bodies() {
    let mut body = handshake_body();
    let last = body.len() - 1;
    body[last] = 3;
    let r = reader_with(ServerState::Waiting, &body[1..], false);
    assert!(!r.handshake_is_supported());
    let r = reader_with(ServerState::Waiting, &handshake_body()[1..], false);
    assert!(r.handshake_is_supported());
    let r = reader_with(ServerState::Login, &[2, 0xC3, 0x28], false);
    assert!(!r.login_start_is_supported());
    let mut r = reader_with(ServerState::Login, &[2, b'o', b'k'], false);
    assert!(r.login_start_is_supported());
    assert!(matches!(
        r.read_login_start_packet(),
        ReadStep::Ready(Ok(ServerboundPacket::StartLogin { .. }))
    ));
    let bytes = classic_ping(1);
    let mut r = reader_with(ServerState::Waiting, &bytes[1..], false);
    assert!(r.classic_ping_is_supported());
    assert!(matches!(
        r.read_classic_ping_packet(),
        ReadStep::Ready(Ok(ServerboundPacket::ClassicPing { .. }))
    ));
    let mut bad = bytes[1..].to_vec();
    bad[4] = 0xD8;
    bad[5] = 0x00;
    bad[6] = 0x00;
    bad[7] = 0x41;
    let r = reader_with(ServerState::Waiting, &bad, false);
    assert!(!r.classic_ping_is_supported());
}

#[test]
fn varint_errors_come_from_the_reader() {
    use_varint_error_cases();
}

fn use_varint_error_cases() {
    use_case(&[0x80, 0x80, 0x80, 0x80, 0x80, 0x80], false, Some((ReadError::InvalidData, 6)));
    use_case(&[0x80, 0x80], false, None);
    use_case(&[0x80, 0x80], true, Some((ReadError::UnexpectedEof, 2)));
    use_case(&[0xff, 0xff, 0xff, 0xff, 0x7f], false, Some((ReadError::UnexpectedEof, 5)));
}

fn use_case(bytes: &[u8], ended: bool, expected: Option<(ReadError, usize)>) {
    match (minecraft_packet::parse::parse_varint_u32(bytes, ended), expected) {
        (Parsed::NeedMore, None) => {}
        (Parsed::Done(Err(e), n), Some((k, m))) => {
            assert_eq!(e, k);
            assert_eq!(n, m);
        }
        _ => panic!("unexpected outcome"),
    }
}
