//! Serverbound packets and the reader that recognises them in the bytes a client sends.
use vstd::prelude::*;
use vstd::slice::{slice_subrange, slice_to_vec};
use vstd::string::StringExecFns;
use crate::byte_order::{htonl, htons, swap16, swap32};
use crate::errors::ReadError;
use crate::varint::{leb128_bytes, lemma_leb128_first};
use crate::parse::{
    after, lemma_fixed_extend, lemma_skip_extend, lemma_take_extend,
    lemma_utf16_string_extend, lemma_utf_string_extend, lemma_varint_extend, lemma_take_within,
    lemma_primitives_total, lemma_varint_roundtrip, lemma_utf16_string_within, lemma_utf_string_within,
    lemma_varint_within, map_step, parse_take, parse_varint_u16, parse_varint_u32,
    parse_varint_u8, parse_varint_usize, read_long, read_uchar, read_uint, read_ushort,
    read_utf16_string, read_utf_string, shifted, spec_read_i64, spec_read_u16, spec_read_u32,
    spec_read_u8, spec_take, spec_utf16_string, spec_utf_string, spec_varint,
    within, Parsed, Step, StringRead,
};

verus! {

/// The state of a connection, which decides how packet identifiers are understood.
#[derive(Debug, Clone, Copy, PartialEq, Eq, Structural)]
pub enum ServerState {
    Waiting,
    Status,
    Login,
    Play,
}

/// Packets that a client sends.
#[derive(Debug)]
pub enum ServerboundPacket {
    /// The handshake: asks the server to switch to `next_state`.
    SetState {
        protocol_version: u16,
        server_address: String,
        server_port: u16,
        next_state: ServerState,
    },
    StartLogin { username: String },
    EncryptionResponse { shared_secret: Vec<u8>, verify_token: Vec<u8> },
    LoginPluginResponse { message_id: u64, successful: bool, data: Option<Vec<u8>> },
    StatusRequest {},
    Ping { payload: i64 },
    /// The ping of clients from before the handshake existed.
    ClassicPing { protocol_version: u8, hostname: String, server_port: u32 },
}

/// What a serverbound packet holds, with its texts as characters and its bytes as sequences.
pub enum PacketModel {
    SetState {
        protocol_version: u16,
        server_address: Seq<char>,
        server_port: u16,
        next_state: ServerState,
    },
    StartLogin { username: Seq<char> },
    EncryptionResponse { shared_secret: Seq<u8>, verify_token: Seq<u8> },
    LoginPluginResponse { message_id: u64, successful: bool, data: Option<Seq<u8>> },
    StatusRequest,
    Ping { payload: i64 },
    ClassicPing { protocol_version: u8, hostname: Seq<char>, server_port: u32 },
}

impl View for ServerboundPacket {
    type V = PacketModel;

    open spec fn view(&self) -> PacketModel {
        match self {
            ServerboundPacket::SetState {
                protocol_version,
                server_address,
                server_port,
                next_state,
            } => PacketModel::SetState {
                protocol_version: *protocol_version,
                server_address: server_address@,
                server_port: *server_port,
                next_state: *next_state,
            },
            ServerboundPacket::StartLogin { username } => PacketModel::StartLogin {
                username: username@,
            },
            ServerboundPacket::EncryptionResponse { shared_secret, verify_token } =>
                PacketModel::EncryptionResponse {
                shared_secret: shared_secret@,
                verify_token: verify_token@,
            },
            ServerboundPacket::LoginPluginResponse { message_id, successful, data } =>
                PacketModel::LoginPluginResponse {
                message_id: *message_id,
                successful: *successful,
                data: match data {
                    Some(d) => Some(d@),
                    None => None,
                },
            },
            ServerboundPacket::StatusRequest {  } => PacketModel::StatusRequest,
            ServerboundPacket::Ping { payload } => PacketModel::Ping { payload: *payload },
            ServerboundPacket::ClassicPing { protocol_version, hostname, server_port } =>
                PacketModel::ClassicPing {
                protocol_version: *protocol_version,
                hostname: hostname@,
                server_port: *server_port,
            },
        }
    }
}

/// What reading a packet body gives, in the model.
pub enum PacketRead {
    /// The packet was read.
    Packet(PacketModel),
    /// A read failed or the packet was refused.
    Failed(ReadError),
    /// The bytes are of a kind that the server does not support; it stops on them.
    Unsupported,
}

/// The outcome of reading a packet body, with `Unsupported` for the inputs on which the
/// server stops.
pub enum PacketOutcome {
    Packet(ServerboundPacket),
    Failed(ReadError),
    Unsupported,
}

/// The model of a packet outcome.
pub open spec fn outcome_view(o: PacketOutcome) -> PacketRead {
    match o {
        PacketOutcome::Packet(p) => PacketRead::Packet(p@),
        PacketOutcome::Failed(e) => PacketRead::Failed(e),
        PacketOutcome::Unsupported => PacketRead::Unsupported,
    }
}

/// The model of the result of one of the reader's packet methods.
pub open spec fn result_view(r: Result<ServerboundPacket, ReadError>) -> PacketRead {
    match r {
        Ok(p) => PacketRead::Packet(p@),
        Err(e) => PacketRead::Failed(e),
    }
}

/// The step `p` is a finished read on which the server stops.
pub open spec fn stops<V>(p: Step<V>, unsupported: V) -> bool {
    p matches Step::Done(v, _) && v == unsupported
}

// ---------------------------------------------------------------------------------------
// Handshake

/// The state that the handshake asks for, by its number.
pub open spec fn requested_state(n: nat) -> Option<ServerState> {
    if n == 1 {
        Some(ServerState::Status)
    } else if n == 2 {
        Some(ServerState::Login)
    } else {
        None
    }
}

/// Reading the body of a handshake: the protocol version (varint), the server address
/// (string of at most 1020 bytes), the port (little-endian) and the next state (varint, 1 for
/// status, 2 for login). A bad address, a failed or other next state are unsupported.
pub open spec fn spec_handshake(s: Seq<u8>, eof: bool) -> Step<PacketRead> {
    match spec_varint(s, eof, 16, 0xffff) {
        Step::NeedMore => Step::NeedMore,
        Step::Done(Err(e), c1) => Step::Done(PacketRead::Failed(e), c1),
        Step::Done(Ok(pv), c1) => after(c1, spec_handshake_address(s.skip(c1 as int), eof, pv as u16)),
    }
}

/// The handshake after its protocol version.
pub open spec fn spec_handshake_address(s: Seq<u8>, eof: bool, pv: u16) -> Step<PacketRead> {
    match spec_utf_string(s, eof, 1020) {
        Step::NeedMore => Step::NeedMore,
        Step::Done(StringRead::Text(addr), c2) => after(
            c2,
            spec_handshake_port(s.skip(c2 as int), eof, pv, addr),
        ),
        Step::Done(_, c2) => Step::Done(PacketRead::Unsupported, c2),
    }
}

/// The handshake after its address.
pub open spec fn spec_handshake_port(s: Seq<u8>, eof: bool, pv: u16, addr: Seq<char>) -> Step<
    PacketRead,
> {
    match spec_read_u16(s, eof) {
        Step::NeedMore => Step::NeedMore,
        Step::Done(Err(e), c3) => Step::Done(PacketRead::Failed(e), c3),
        Step::Done(Ok(port), c3) => after(
            c3,
            spec_handshake_state(s.skip(c3 as int), eof, pv, addr, port),
        ),
    }
}

/// The handshake after its port.
pub open spec fn spec_handshake_state(
    s: Seq<u8>,
    eof: bool,
    pv: u16,
    addr: Seq<char>,
    port: u16,
) -> Step<PacketRead> {
    match spec_varint(s, eof, 8, 0xff) {
        Step::NeedMore => Step::NeedMore,
        Step::Done(Ok(n), c4) => match requested_state(n) {
            Some(st) => Step::Done(
                PacketRead::Packet(
                    PacketModel::SetState {
                        protocol_version: pv,
                        server_address: addr,
                        server_port: port,
                        next_state: st,
                    },
                ),
                c4,
            ),
            None => Step::Done(PacketRead::Unsupported, c4),
        },
        Step::Done(Err(_), c4) => Step::Done(PacketRead::Unsupported, c4),
    }
}

fn handshake_state(s: &[u8], eof: bool, pv: u16, addr: String, port: u16) -> (r: Parsed<
    PacketOutcome,
>)
    ensures
        map_step(r, |o: PacketOutcome| outcome_view(o)) == spec_handshake_state(
            s@,
            eof,
            pv,
            addr@,
            port,
        ),
        within(map_step(r, |o: PacketOutcome| outcome_view(o)), s@.len()),
{
    proof {
        lemma_varint_within(s@, eof, 8, 0xff);
    }
    match parse_varint_u8(s, eof) {
        Parsed::NeedMore => Parsed::NeedMore,
        Parsed::Done(Ok(n), c4) => {
            if n == 1 {
                Parsed::Done(
                    PacketOutcome::Packet(
                        ServerboundPacket::SetState {
                            protocol_version: pv,
                            server_address: addr,
                            server_port: port,
                            next_state: ServerState::Status,
                        },
                    ),
                    c4,
                )
            } else if n == 2 {
                Parsed::Done(
                    PacketOutcome::Packet(
                        ServerboundPacket::SetState {
                            protocol_version: pv,
                            server_address: addr,
                            server_port: port,
                            next_state: ServerState::Login,
                        },
                    ),
                    c4,
                )
            } else {
                Parsed::Done(PacketOutcome::Unsupported, c4)
            }
        },
        Parsed::Done(Err(_), c4) => Parsed::Done(PacketOutcome::Unsupported, c4),
    }
}

fn handshake_port(s: &[u8], eof: bool, pv: u16, addr: String) -> (r: Parsed<PacketOutcome>)
    ensures
        map_step(r, |o: PacketOutcome| outcome_view(o)) == spec_handshake_port(s@, eof, pv, addr@),
        within(map_step(r, |o: PacketOutcome| outcome_view(o)), s@.len()),
{
    match read_ushort(s, eof) {
        Parsed::NeedMore => Parsed::NeedMore,
        Parsed::Done(Err(e), c3) => Parsed::Done(PacketOutcome::Failed(e), c3),
        Parsed::Done(Ok(port), c3) => {
            let rest = slice_subrange(s, c3, s.len());
            assert(rest@ =~= s@.skip(c3 as int));
            shifted(c3, handshake_state(rest, eof, pv, addr, port))
        },
    }
}

fn handshake_address(s: &[u8], eof: bool, pv: u16) -> (r: Parsed<PacketOutcome>)
    ensures
        map_step(r, |o: PacketOutcome| outcome_view(o)) == spec_handshake_address(s@, eof, pv),
        within(map_step(r, |o: PacketOutcome| outcome_view(o)), s@.len()),
{
    proof {
        lemma_utf_string_within(s@, eof, 1020);
    }
    match read_utf_string(s, eof, 1020) {
        Parsed::NeedMore => Parsed::NeedMore,
        Parsed::Done(Ok(addr), c2) => {
            let rest = slice_subrange(s, c2, s.len());
            assert(rest@ =~= s@.skip(c2 as int));
            shifted(c2, handshake_port(rest, eof, pv, addr))
        },
        Parsed::Done(Err(_), c2) => Parsed::Done(PacketOutcome::Unsupported, c2),
    }
}

/// Reads the body of a handshake packet.
fn parse_handshake(s: &[u8], eof: bool) -> (r: Parsed<PacketOutcome>)
    ensures
        map_step(r, |o: PacketOutcome| outcome_view(o)) == spec_handshake(s@, eof),
        within(map_step(r, |o: PacketOutcome| outcome_view(o)), s@.len()),
{
    proof {
        lemma_varint_within(s@, eof, 16, 0xffff);
    }
    match parse_varint_u16(s, eof) {
        Parsed::NeedMore => Parsed::NeedMore,
        Parsed::Done(Err(e), c1) => Parsed::Done(PacketOutcome::Failed(e), c1),
        Parsed::Done(Ok(pv), c1) => {
            let rest = slice_subrange(s, c1, s.len());
            assert(rest@ =~= s@.skip(c1 as int));
            shifted(c1, handshake_address(rest, eof, pv))
        },
    }
}

// ---------------------------------------------------------------------------------------
// Login

/// Reading the body of a login start packet: the user name, a string of at most 64 bytes;
/// a bad name is unsupported.
pub open spec fn spec_login_start(s: Seq<u8>, eof: bool) -> Step<PacketRead> {
    match spec_utf_string(s, eof, 64) {
        Step::NeedMore => Step::NeedMore,
        Step::Done(StringRead::Text(name), c) => Step::Done(
            PacketRead::Packet(PacketModel::StartLogin { username: name }),
            c,
        ),
        Step::Done(_, c) => Step::Done(PacketRead::Unsupported, c),
    }
}

fn parse_login_start(s: &[u8], eof: bool) -> (r: Parsed<PacketOutcome>)
    ensures
        map_step(r, |o: PacketOutcome| outcome_view(o)) == spec_login_start(s@, eof),
        within(map_step(r, |o: PacketOutcome| outcome_view(o)), s@.len()),
{
    proof {
        lemma_utf_string_within(s@, eof, 64);
    }
    match read_utf_string(s, eof, 16 * 4) {
        Parsed::NeedMore => Parsed::NeedMore,
        Parsed::Done(Ok(username), c) => Parsed::Done(
            PacketOutcome::Packet(ServerboundPacket::StartLogin { username }),
            c,
        ),
        Parsed::Done(Err(_), c) => Parsed::Done(PacketOutcome::Unsupported, c),
    }
}

/// Reading the body of an encryption response: the shared secret and the verify token, each
/// a varint length followed by that many bytes (fewer when the stream ends).
pub open spec fn spec_encryption_response(s: Seq<u8>, eof: bool) -> Step<PacketRead> {
    match spec_varint(s, eof, usize::BITS as nat, usize::MAX as nat) {
        Step::NeedMore => Step::NeedMore,
        Step::Done(Err(e), c) => Step::Done(PacketRead::Failed(e), c),
        Step::Done(Ok(n), c) => after(c, spec_encryption_secret(s.skip(c as int), eof, n)),
    }
}

/// The encryption response after the secret's length.
pub open spec fn spec_encryption_secret(s: Seq<u8>, eof: bool, n: nat) -> Step<PacketRead> {
    match spec_take(s, eof, n) {
        Step::NeedMore => Step::NeedMore,
        Step::Done(secret, c) => after(c, spec_encryption_token_len(s.skip(c as int), eof, secret)),
    }
}

/// The encryption response after the secret.
pub open spec fn spec_encryption_token_len(s: Seq<u8>, eof: bool, secret: Seq<u8>) -> Step<
    PacketRead,
> {
    match spec_varint(s, eof, usize::BITS as nat, usize::MAX as nat) {
        Step::NeedMore => Step::NeedMore,
        Step::Done(Err(e), c) => Step::Done(PacketRead::Failed(e), c),
        Step::Done(Ok(n), c) => after(
            c,
            match spec_take(s.skip(c as int), eof, n) {
                Step::NeedMore => Step::NeedMore,
                Step::Done(token, c2) => Step::Done(
                    PacketRead::Packet(
                        PacketModel::EncryptionResponse { shared_secret: secret, verify_token: token },
                    ),
                    c2,
                ),
            },
        ),
    }
}

fn encryption_token_len(s: &[u8], eof: bool, secret: Vec<u8>) -> (r: Parsed<PacketOutcome>)
    ensures
        map_step(r, |o: PacketOutcome| outcome_view(o)) == spec_encryption_token_len(
            s@,
            eof,
            secret@,
        ),
        within(map_step(r, |o: PacketOutcome| outcome_view(o)), s@.len()),
{
    proof {
        lemma_varint_within(s@, eof, usize::BITS as nat, usize::MAX as nat);
    }
    match parse_varint_usize(s, eof) {
        Parsed::NeedMore => Parsed::NeedMore,
        Parsed::Done(Err(e), c) => Parsed::Done(PacketOutcome::Failed(e), c),
        Parsed::Done(Ok(n), c) => {
            let rest = slice_subrange(s, c, s.len());
            assert(rest@ =~= s@.skip(c as int));
            proof {
                lemma_take_within(rest@, eof, n as nat);
            }
            let token = match parse_take(rest, eof, n) {
                Parsed::NeedMore => Parsed::NeedMore,
                Parsed::Done(verify_token, c2) => Parsed::Done(
                    PacketOutcome::Packet(
                        ServerboundPacket::EncryptionResponse { shared_secret: secret, verify_token },
                    ),
                    c2,
                ),
            };
            shifted(c, token)
        },
    }
}

fn encryption_secret(s: &[u8], eof: bool, n: usize) -> (r: Parsed<PacketOutcome>)
    ensures
        map_step(r, |o: PacketOutcome| outcome_view(o)) == spec_encryption_secret(
            s@,
            eof,
            n as nat,
        ),
        within(map_step(r, |o: PacketOutcome| outcome_view(o)), s@.len()),
{
    proof {
        lemma_take_within(s@, eof, n as nat);
    }
    match parse_take(s, eof, n) {
        Parsed::NeedMore => Parsed::NeedMore,
        Parsed::Done(secret, c) => {
            let rest = slice_subrange(s, c, s.len());
            assert(rest@ =~= s@.skip(c as int));
            shifted(c, encryption_token_len(rest, eof, secret))
        },
    }
}

fn parse_encryption_response(s: &[u8], eof: bool) -> (r: Parsed<PacketOutcome>)
    ensures
        map_step(r, |o: PacketOutcome| outcome_view(o)) == spec_encryption_response(s@, eof),
        within(map_step(r, |o: PacketOutcome| outcome_view(o)), s@.len()),
{
    proof {
        lemma_varint_within(s@, eof, usize::BITS as nat, usize::MAX as nat);
    }
    match parse_varint_usize(s, eof) {
        Parsed::NeedMore => Parsed::NeedMore,
        Parsed::Done(Err(e), c) => Parsed::Done(PacketOutcome::Failed(e), c),
        Parsed::Done(Ok(n), c) => {
            let rest = slice_subrange(s, c, s.len());
            assert(rest@ =~= s@.skip(c as int));
            shifted(c, encryption_secret(rest, eof, n))
        },
    }
}

// ---------------------------------------------------------------------------------------
// Status

/// Reading the body of a ping: a 64-bit number stored little-endian.
pub open spec fn spec_ping(s: Seq<u8>, eof: bool) -> Step<PacketRead> {
    match spec_read_i64(s, eof) {
        Step::NeedMore => Step::NeedMore,
        Step::Done(Err(e), c) => Step::Done(PacketRead::Failed(e), c),
        Step::Done(Ok(nonce), c) => Step::Done(
            PacketRead::Packet(PacketModel::Ping { payload: nonce }),
            c,
        ),
    }
}

fn parse_ping(s: &[u8], eof: bool) -> (r: Parsed<PacketOutcome>)
    ensures
        map_step(r, |o: PacketOutcome| outcome_view(o)) == spec_ping(s@, eof),
        within(map_step(r, |o: PacketOutcome| outcome_view(o)), s@.len()),
{
    match read_long(s, eof) {
        Parsed::NeedMore => Parsed::NeedMore,
        Parsed::Done(Err(e), c) => Parsed::Done(PacketOutcome::Failed(e), c),
        Parsed::Done(Ok(nonce), c) => Parsed::Done(
            PacketOutcome::Packet(ServerboundPacket::Ping { payload: nonce }),
            c,
        ),
    }
}

// ---------------------------------------------------------------------------------------
// Classic ping

/// Reading the body of a classic ping, after its first byte 0xFE: the payload 1 and the
/// plugin message identifier 0xFA, the length 11 (big-endian) of the UTF-16 text
/// `MC|PingHost`, the length of the rest (ignored), the protocol version, the host name's
/// length in units (big-endian) and the host name in UTF-16, and the port (big-endian).
/// Wrong constants fail the read; a host text that is not UTF-16 is unsupported.
pub open spec fn spec_classic_ping(s: Seq<u8>, eof: bool) -> Step<PacketRead> {
    match spec_read_u8(s, eof) {
        Step::NeedMore => Step::NeedMore,
        Step::Done(Err(e), c) => Step::Done(PacketRead::Failed(e), c),
        Step::Done(Ok(payload), c) => after(c, spec_classic_msg_id(s.skip(c as int), eof, payload)),
    }
}

/// The classic ping after its payload.
pub open spec fn spec_classic_msg_id(s: Seq<u8>, eof: bool, payload: u8) -> Step<PacketRead> {
    match spec_read_u8(s, eof) {
        Step::NeedMore => Step::NeedMore,
        Step::Done(Err(e), c) => Step::Done(PacketRead::Failed(e), c),
        Step::Done(Ok(id), c) => if payload != 1 || id != 0xFA {
            Step::Done(PacketRead::Failed(ReadError::InvalidData), c)
        } else {
            after(c, spec_classic_host_len(s.skip(c as int), eof))
        },
    }
}

/// The classic ping after its plugin message identifier.
pub open spec fn spec_classic_host_len(s: Seq<u8>, eof: bool) -> Step<PacketRead> {
    match spec_read_u16(s, eof) {
        Step::NeedMore => Step::NeedMore,
        Step::Done(Err(e), c) => Step::Done(PacketRead::Failed(e), c),
        Step::Done(Ok(h), c) => if swap16(h) != 11 {
            Step::Done(PacketRead::Failed(ReadError::InvalidData), c)
        } else {
            after(c, spec_classic_host_str(s.skip(c as int), eof))
        },
    }
}

/// The classic ping after the length of its host text.
pub open spec fn spec_classic_host_str(s: Seq<u8>, eof: bool) -> Step<PacketRead> {
    match spec_utf16_string(s, eof, 22) {
        Step::NeedMore => Step::NeedMore,
        Step::Done(StringRead::Text(t), c) => if t != "MC|PingHost"@ {
            Step::Done(PacketRead::Failed(ReadError::InvalidData), c)
        } else {
            after(c, spec_classic_data_len(s.skip(c as int), eof))
        },
        Step::Done(_, c) => Step::Done(PacketRead::Unsupported, c),
    }
}

/// The classic ping after its host text.
pub open spec fn spec_classic_data_len(s: Seq<u8>, eof: bool) -> Step<PacketRead> {
    match spec_read_u16(s, eof) {
        Step::NeedMore => Step::NeedMore,
        Step::Done(Err(e), c) => Step::Done(PacketRead::Failed(e), c),
        Step::Done(Ok(_), c) => after(c, spec_classic_version(s.skip(c as int), eof)),
    }
}

/// The classic ping after the length of its rest.
pub open spec fn spec_classic_version(s: Seq<u8>, eof: bool) -> Step<PacketRead> {
    match spec_read_u8(s, eof) {
        Step::NeedMore => Step::NeedMore,
        Step::Done(Err(e), c) => Step::Done(PacketRead::Failed(e), c),
        Step::Done(Ok(pv), c) => after(c, spec_classic_hostname_len(s.skip(c as int), eof, pv)),
    }
}

/// The classic ping after its protocol version.
pub open spec fn spec_classic_hostname_len(s: Seq<u8>, eof: bool, pv: u8) -> Step<PacketRead> {
    match spec_read_u16(s, eof) {
        Step::NeedMore => Step::NeedMore,
        Step::Done(Err(e), c) => Step::Done(PacketRead::Failed(e), c),
        Step::Done(Ok(h), c) => after(
            c,
            spec_classic_hostname(s.skip(c as int), eof, pv, (2 * swap16(h)) as nat),
        ),
    }
}

/// The classic ping after the length of its host name.
pub open spec fn spec_classic_hostname(s: Seq<u8>, eof: bool, pv: u8, len: nat) -> Step<
    PacketRead,
> {
    match spec_utf16_string(s, eof, len) {
        Step::NeedMore => Step::NeedMore,
        Step::Done(StringRead::Text(host), c) => after(
            c,
            spec_classic_port(s.skip(c as int), eof, pv, host),
        ),
        Step::Done(_, c) => Step::Done(PacketRead::Unsupported, c),
    }
}

/// The classic ping after its host name.
pub open spec fn spec_classic_port(s: Seq<u8>, eof: bool, pv: u8, host: Seq<char>) -> Step<
    PacketRead,
> {
    match spec_read_u32(s, eof) {
        Step::NeedMore => Step::NeedMore,
        Step::Done(Err(e), c) => Step::Done(PacketRead::Failed(e), c),
        Step::Done(Ok(p), c) => Step::Done(
            PacketRead::Packet(
                PacketModel::ClassicPing {
                    protocol_version: pv,
                    hostname: host,
                    server_port: swap32(p),
                },
            ),
            c,
        ),
    }
}

fn classic_port(s: &[u8], eof: bool, pv: u8, hostname: String) -> (r: Parsed<PacketOutcome>)
    ensures
        map_step(r, |o: PacketOutcome| outcome_view(o)) == spec_classic_port(
            s@,
            eof,
            pv,
            hostname@,
        ),
        within(map_step(r, |o: PacketOutcome| outcome_view(o)), s@.len()),
{
    match read_uint(s, eof) {
        Parsed::NeedMore => Parsed::NeedMore,
        Parsed::Done(Err(e), c) => Parsed::Done(PacketOutcome::Failed(e), c),
        Parsed::Done(Ok(p), c) => {
            let server_port: u32 = htonl(p);
            Parsed::Done(
                PacketOutcome::Packet(
                    ServerboundPacket::ClassicPing { protocol_version: pv, hostname, server_port },
                ),
                c,
            )
        },
    }
}

fn classic_hostname(s: &[u8], eof: bool, pv: u8, len: usize) -> (r: Parsed<PacketOutcome>)
    ensures
        map_step(r, |o: PacketOutcome| outcome_view(o)) == spec_classic_hostname(
            s@,
            eof,
            pv,
            len as nat,
        ),
        within(map_step(r, |o: PacketOutcome| outcome_view(o)), s@.len()),
{
    proof {
        lemma_utf16_string_within(s@, eof, len as nat);
    }
    match read_utf16_string(s, eof, len) {
        Parsed::NeedMore => Parsed::NeedMore,
        Parsed::Done(Ok(hostname), c) => {
            let rest = slice_subrange(s, c, s.len());
            assert(rest@ =~= s@.skip(c as int));
            shifted(c, classic_port(rest, eof, pv, hostname))
        },
        Parsed::Done(Err(_), c) => Parsed::Done(PacketOutcome::Unsupported, c),
    }
}

fn classic_hostname_len(s: &[u8], eof: bool, pv: u8) -> (r: Parsed<PacketOutcome>)
    ensures
        map_step(r, |o: PacketOutcome| outcome_view(o)) == spec_classic_hostname_len(s@, eof, pv),
        within(map_step(r, |o: PacketOutcome| outcome_view(o)), s@.len()),
{
    match read_ushort(s, eof) {
        Parsed::NeedMore => Parsed::NeedMore,
        Parsed::Done(Err(e), c) => Parsed::Done(PacketOutcome::Failed(e), c),
        Parsed::Done(Ok(h), c) => {
            let hostname_len = htons(h);
            let rest = slice_subrange(s, c, s.len());
            assert(rest@ =~= s@.skip(c as int));
            shifted(c, classic_hostname(rest, eof, pv, 2 * hostname_len as usize))
        },
    }
}

fn classic_version(s: &[u8], eof: bool) -> (r: Parsed<PacketOutcome>)
    ensures
        map_step(r, |o: PacketOutcome| outcome_view(o)) == spec_classic_version(s@, eof),
        within(map_step(r, |o: PacketOutcome| outcome_view(o)), s@.len()),
{
    match read_uchar(s, eof) {
        Parsed::NeedMore => Parsed::NeedMore,
        Parsed::Done(Err(e), c) => Parsed::Done(PacketOutcome::Failed(e), c),
        Parsed::Done(Ok(pv), c) => {
            let rest = slice_subrange(s, c, s.len());
            assert(rest@ =~= s@.skip(c as int));
            shifted(c, classic_hostname_len(rest, eof, pv))
        },
    }
}

fn classic_data_len(s: &[u8], eof: bool) -> (r: Parsed<PacketOutcome>)
    ensures
        map_step(r, |o: PacketOutcome| outcome_view(o)) == spec_classic_data_len(s@, eof),
        within(map_step(r, |o: PacketOutcome| outcome_view(o)), s@.len()),
{
    match read_ushort(s, eof) {
        Parsed::NeedMore => Parsed::NeedMore,
        Parsed::Done(Err(e), c) => Parsed::Done(PacketOutcome::Failed(e), c),
        Parsed::Done(Ok(d), c) => {
            let _data_len = htons(d);
            let rest = slice_subrange(s, c, s.len());
            assert(rest@ =~= s@.skip(c as int));
            shifted(c, classic_version(rest, eof))
        },
    }
}

fn classic_host_str(s: &[u8], eof: bool) -> (r: Parsed<PacketOutcome>)
    ensures
        map_step(r, |o: PacketOutcome| outcome_view(o)) == spec_classic_host_str(s@, eof),
        within(map_step(r, |o: PacketOutcome| outcome_view(o)), s@.len()),
{
    proof {
        lemma_utf16_string_within(s@, eof, 22);
    }
    match read_utf16_string(s, eof, 2 * 11) {
        Parsed::NeedMore => Parsed::NeedMore,
        Parsed::Done(Ok(ping_host_str), c) => {
            let expected = String::from_str("MC|PingHost");
            if !(ping_host_str == expected) {
                Parsed::Done(PacketOutcome::Failed(ReadError::InvalidData), c)
            } else {
                let rest = slice_subrange(s, c, s.len());
                assert(rest@ =~= s@.skip(c as int));
                shifted(c, classic_data_len(rest, eof))
            }
        },
        Parsed::Done(Err(_), c) => Parsed::Done(PacketOutcome::Unsupported, c),
    }
}

fn classic_host_len(s: &[u8], eof: bool) -> (r: Parsed<PacketOutcome>)
    ensures
        map_step(r, |o: PacketOutcome| outcome_view(o)) == spec_classic_host_len(s@, eof),
        within(map_step(r, |o: PacketOutcome| outcome_view(o)), s@.len()),
{
    match read_ushort(s, eof) {
        Parsed::NeedMore => Parsed::NeedMore,
        Parsed::Done(Err(e), c) => Parsed::Done(PacketOutcome::Failed(e), c),
        Parsed::Done(Ok(h), c) => {
            let ping_host_len = htons(h);
            if ping_host_len != 11 {
                Parsed::Done(PacketOutcome::Failed(ReadError::InvalidData), c)
            } else {
                let rest = slice_subrange(s, c, s.len());
                assert(rest@ =~= s@.skip(c as int));
                shifted(c, classic_host_str(rest, eof))
            }
        },
    }
}

fn classic_msg_id(s: &[u8], eof: bool, payload: u8) -> (r: Parsed<PacketOutcome>)
    ensures
        map_step(r, |o: PacketOutcome| outcome_view(o)) == spec_classic_msg_id(s@, eof, payload),
        within(map_step(r, |o: PacketOutcome| outcome_view(o)), s@.len()),
{
    match read_uchar(s, eof) {
        Parsed::NeedMore => Parsed::NeedMore,
        Parsed::Done(Err(e), c) => Parsed::Done(PacketOutcome::Failed(e), c),
        Parsed::Done(Ok(plugin_msg_id), c) => {
            if payload != 1 || plugin_msg_id != 0xFA {
                Parsed::Done(PacketOutcome::Failed(ReadError::InvalidData), c)
            } else {
                let rest = slice_subrange(s, c, s.len());
                assert(rest@ =~= s@.skip(c as int));
                shifted(c, classic_host_len(rest, eof))
            }
        },
    }
}

fn parse_classic_ping(s: &[u8], eof: bool) -> (r: Parsed<PacketOutcome>)
    ensures
        map_step(r, |o: PacketOutcome| outcome_view(o)) == spec_classic_ping(s@, eof),
        within(map_step(r, |o: PacketOutcome| outcome_view(o)), s@.len()),
{
    match read_uchar(s, eof) {
        Parsed::NeedMore => Parsed::NeedMore,
        Parsed::Done(Err(e), c) => Parsed::Done(PacketOutcome::Failed(e), c),
        Parsed::Done(Ok(payload), c) => {
            let rest = slice_subrange(s, c, s.len());
            assert(rest@ =~= s@.skip(c as int));
            shifted(c, classic_msg_id(rest, eof, payload))
        },
    }
}

// ---------------------------------------------------------------------------------------
// The next packet

/// What looking for the next packet gives, in the model.
pub enum NextRead {
    /// The packet, or nothing when its reading failed or its identifier is not known.
    Produced(Option<PacketModel>),
    /// The bytes are of a kind that the server does not support; it stops on them.
    Unsupported,
}

/// The outcome of looking for the next packet.
pub enum NextOutcome {
    Produced(Option<ServerboundPacket>),
    Unsupported,
}

/// The model of a packet, when there is one.
pub open spec fn option_view(p: Option<ServerboundPacket>) -> Option<PacketModel> {
    match p {
        Some(q) => Some(q@),
        None => None,
    }
}

/// The model of the outcome of looking for the next packet.
pub open spec fn next_view(o: NextOutcome) -> NextRead {
    match o {
        NextOutcome::Produced(p) => NextRead::Produced(option_view(p)),
        NextOutcome::Unsupported => NextRead::Unsupported,
    }
}

/// A packet read, with a failure turned into nothing.
pub open spec fn ok_of(p: PacketRead) -> NextRead {
    match p {
        PacketRead::Packet(m) => NextRead::Produced(Some(m)),
        PacketRead::Failed(_) => NextRead::Produced(None),
        PacketRead::Unsupported => NextRead::Unsupported,
    }
}

/// A packet step, with a failure turned into nothing.
pub open spec fn next_of(p: Step<PacketRead>) -> Step<NextRead> {
    match p {
        Step::NeedMore => Step::NeedMore,
        Step::Done(v, n) => Step::Done(ok_of(v), n),
    }
}

/// Skipping the body of a packet of unknown identifier before any state is chosen: one read
/// of at most ten bytes, which takes what has arrived.
pub open spec fn spec_discard(s: Seq<u8>, eof: bool) -> Step<NextRead> {
    if s.len() >= 1 {
        Step::Done(NextRead::Produced(None), if s.len() < 10 { s.len() } else { 10 })
    } else if eof {
        Step::Done(NextRead::Produced(None), 0)
    } else {
        Step::NeedMore
    }
}

/// Reading the body of a packet with identifier `id` in state `state`.
pub open spec fn spec_dispatch(
    state: ServerState,
    id: Result<nat, ReadError>,
    s: Seq<u8>,
    eof: bool,
) -> Step<NextRead> {
    match state {
        ServerState::Waiting => match id {
            Ok(v) => if v == 0 {
                next_of(spec_handshake(s, eof))
            } else {
                spec_discard(s, eof)
            },
            Err(_) => Step::Done(NextRead::Produced(None), 0),
        },
        ServerState::Login => match id {
            Ok(v) => if v == 0 {
                next_of(spec_login_start(s, eof))
            } else if v == 1 {
                next_of(spec_encryption_response(s, eof))
            } else if v == 2 {
                Step::Done(NextRead::Unsupported, 0)
            } else {
                Step::Done(NextRead::Produced(None), 0)
            },
            Err(_) => Step::Done(NextRead::Produced(None), 0),
        },
        ServerState::Status => match id {
            Ok(v) => if v == 0 {
                Step::Done(NextRead::Unsupported, 0)
            } else if v == 1 {
                next_of(spec_ping(s, eof))
            } else {
                Step::Done(NextRead::Produced(None), 0)
            },
            Err(_) => Step::Done(NextRead::Produced(None), 0),
        },
        ServerState::Play => Step::Done(NextRead::Unsupported, 0),
    }
}

/// Reading a packet's identifier (varint) and then its body.
pub open spec fn spec_mc_packet(state: ServerState, s: Seq<u8>, eof: bool) -> Step<NextRead> {
    match spec_varint(s, eof, 32, 0xffff_ffff) {
        Step::NeedMore => Step::NeedMore,
        Step::Done(id, c) => after(c, spec_dispatch(state, id, s.skip(c as int), eof)),
    }
}

/// What follows the first byte `h` of a packet: 0xFE starts a classic ping; otherwise `h`
/// begins the length varint, whose remaining bytes are skipped when its high bit is set,
/// and the identifier and body follow.
pub open spec fn spec_after_header(state: ServerState, s: Seq<u8>, eof: bool, h: u8) -> Step<
    NextRead,
> {
    if h == 0xFE {
        next_of(spec_classic_ping(s, eof))
    } else if h >= 0x80 {
        match spec_varint(s, eof, 32, 0xffff_ffff) {
            Step::NeedMore => Step::NeedMore,
            Step::Done(_, c) => after(c, spec_mc_packet(state, s.skip(c as int), eof)),
        }
    } else {
        spec_mc_packet(state, s, eof)
    }
}

/// Looking for the next packet: its first byte (taken as 0 when the stream has ended), then
/// what follows it.
pub open spec fn spec_next(state: ServerState, s: Seq<u8>, eof: bool) -> Step<NextRead> {
    if s.len() >= 1 {
        after(1, spec_after_header(state, s.skip(1), eof, s[0]))
    } else if eof {
        spec_after_header(state, s, eof, 0)
    } else {
        Step::NeedMore
    }
}

fn ok_outcome(p: Parsed<PacketOutcome>) -> (r: Parsed<NextOutcome>)
    ensures
        map_step(r, |o: NextOutcome| next_view(o)) == next_of(
            map_step(p, |o: PacketOutcome| outcome_view(o)),
        ),
{
    match p {
        Parsed::NeedMore => Parsed::NeedMore,
        Parsed::Done(PacketOutcome::Packet(q), n) => Parsed::Done(NextOutcome::Produced(Some(q)), n),
        Parsed::Done(PacketOutcome::Failed(_), n) => Parsed::Done(NextOutcome::Produced(None), n),
        Parsed::Done(PacketOutcome::Unsupported, n) => Parsed::Done(NextOutcome::Unsupported, n),
    }
}

fn discard(s: &[u8], eof: bool) -> (r: Parsed<NextOutcome>)
    ensures
        map_step(r, |o: NextOutcome| next_view(o)) == spec_discard(s@, eof),
        within(map_step(r, |o: NextOutcome| next_view(o)), s@.len()),
{
    if s.len() >= 1 {
        let n = if s.len() < 10 {
            s.len()
        } else {
            10
        };
        Parsed::Done(NextOutcome::Produced(None), n)
    } else if eof {
        Parsed::Done(NextOutcome::Produced(None), 0)
    } else {
        Parsed::NeedMore
    }
}

fn dispatch(state: ServerState, id: Result<u32, ReadError>, s: &[u8], eof: bool) -> (r: Parsed<
    NextOutcome,
>)
    ensures
        map_step(r, |o: NextOutcome| next_view(o)) == spec_dispatch(
            state,
            match id {
                Ok(v) => Ok(v as nat),
                Err(e) => Err(e),
            },
            s@,
            eof,
        ),
        within(map_step(r, |o: NextOutcome| next_view(o)), s@.len()),
{
    match state {
        ServerState::Waiting => match id {
            Ok(0u32) => ok_outcome(parse_handshake(s, eof)),
            Ok(_) => discard(s, eof),
            Err(_) => Parsed::Done(NextOutcome::Produced(None), 0),
        },
        ServerState::Login => match id {
            Ok(0u32) => ok_outcome(parse_login_start(s, eof)),
            Ok(1u32) => ok_outcome(parse_encryption_response(s, eof)),
            Ok(2u32) => Parsed::Done(NextOutcome::Unsupported, 0),
            _ => Parsed::Done(NextOutcome::Produced(None), 0),
        },
        ServerState::Status => match id {
            Ok(0u32) => Parsed::Done(NextOutcome::Unsupported, 0),
            Ok(1u32) => ok_outcome(parse_ping(s, eof)),
            _ => Parsed::Done(NextOutcome::Produced(None), 0),
        },
        ServerState::Play => Parsed::Done(NextOutcome::Unsupported, 0),
    }
}

fn mc_packet(state: ServerState, s: &[u8], eof: bool) -> (r: Parsed<NextOutcome>)
    ensures
        map_step(r, |o: NextOutcome| next_view(o)) == spec_mc_packet(state, s@, eof),
        within(map_step(r, |o: NextOutcome| next_view(o)), s@.len()),
{
    proof {
        lemma_varint_within(s@, eof, 32, 0xffff_ffff);
    }
    match parse_varint_u32(s, eof) {
        Parsed::NeedMore => Parsed::NeedMore,
        Parsed::Done(packet_id, c) => {
            let rest = slice_subrange(s, c, s.len());
            assert(rest@ =~= s@.skip(c as int));
            shifted(c, dispatch(state, packet_id, rest, eof))
        },
    }
}

fn after_header(state: ServerState, s: &[u8], eof: bool, h: u8) -> (r: Parsed<NextOutcome>)
    ensures
        map_step(r, |o: NextOutcome| next_view(o)) == spec_after_header(state, s@, eof, h),
        within(map_step(r, |o: NextOutcome| next_view(o)), s@.len()),
{
    assert(h & 0x80 != 0 <==> h >= 0x80) by (bit_vector);
    if h == 0xFE {
        ok_outcome(parse_classic_ping(s, eof))
    } else if h & 0x80 != 0 {
        proof {
            lemma_varint_within(s@, eof, 32, 0xffff_ffff);
        }
        match parse_varint_u32(s, eof) {
            Parsed::NeedMore => Parsed::NeedMore,
            Parsed::Done(_packet_len, c) => {
                let rest = slice_subrange(s, c, s.len());
                assert(rest@ =~= s@.skip(c as int));
                shifted(c, mc_packet(state, rest, eof))
            },
        }
    } else {
        mc_packet(state, s, eof)
    }
}

fn parse_next(state: ServerState, s: &[u8], eof: bool) -> (r: Parsed<NextOutcome>)
    ensures
        map_step(r, |o: NextOutcome| next_view(o)) == spec_next(state, s@, eof),
        within(map_step(r, |o: NextOutcome| next_view(o)), s@.len()),
{
    match read_uchar(s, eof) {
        Parsed::Done(Ok(h), c) => {
            let rest = slice_subrange(s, c, s.len());
            assert(rest@ =~= s@.skip(1));
            shifted(c, after_header(state, rest, eof, h))
        },
        Parsed::Done(Err(_), _) => after_header(state, s, eof, 0),
        Parsed::NeedMore => Parsed::NeedMore,
    }
}

// ---------------------------------------------------------------------------------------
// The reader

/// The answer of a reader: more bytes are needed first, or the result.
pub enum ReadStep<T> {
    NeedMore,
    Ready(T),
}

/// Reads serverbound packets from the bytes that a stream delivers.
///
/// The reader holds the stream, for the code that feeds it, and the bytes received but not
/// yet consumed. Each read consumes bytes only when it gives a result; when it needs more,
/// the bytes stay, and the read can be asked again after more have been received.
pub struct MinecraftPacketReader<R> {
    reader: R,
    state: ServerState,
    received: Vec<u8>,
    eof: bool,
}

impl<R> MinecraftPacketReader<R> {
    /// The stream that the bytes come from.
    pub closed spec fn stream(&self) -> R {
        self.reader
    }

    /// The state of the connection.
    pub closed spec fn state(&self) -> ServerState {
        self.state
    }

    /// The bytes received and not yet consumed.
    pub closed spec fn received(&self) -> Seq<u8> {
        self.received@
    }

    /// Whether the stream has ended after the received bytes.
    pub closed spec fn ended(&self) -> bool {
        self.eof
    }

    /// `self` and `other` differ at most in the received bytes.
    pub open spec fn same_but_received(&self, other: &Self) -> bool {
        &&& self.stream() == other.stream()
        &&& self.state() == other.state()
        &&& self.ended() == other.ended()
    }

    /// A reader of `stream`, waiting for a handshake, with nothing received.
    pub fn new(stream: R) -> (res: std::io::Result<Self>)
        ensures
            res is Ok,
            res->Ok_0.stream() == stream,
            res->Ok_0.state() == ServerState::Waiting,
            res->Ok_0.received() == Seq::<u8>::empty(),
            !res->Ok_0.ended(),
    {
        Ok(Self { reader: stream, state: ServerState::Waiting, received: Vec::new(), eof: false })
    }

    /// Moves the connection into `state`.
    pub fn set_state(&mut self, state: ServerState)
        ensures
            final(self).state() == state,
            final(self).stream() == old(self).stream(),
            final(self).received() == old(self).received(),
            final(self).ended() == old(self).ended(),
    {
        self.state = state;
    }

    /// The state of the connection.
    pub fn get_state(&self) -> (s: ServerState)
        ensures
            s == self.state(),
    {
        self.state
    }

    /// The stream, to read more bytes from it.
    pub fn get_mut(&mut self) -> (r: &mut R)
        ensures
            *r == old(self).stream(),
            final(self).stream() == *final(r),
            final(self).state() == old(self).state(),
            final(self).received() == old(self).received(),
            final(self).ended() == old(self).ended(),
    {
        &mut self.reader
    }

    /// Adds bytes that the stream delivered.
    pub fn receive(&mut self, bytes: &[u8])
        ensures
            final(self).received() == old(self).received() + bytes@,
            final(self).same_but_received(old(self)),
    {
        self.received.extend_from_slice(bytes);
        assert(self.received@ =~= old(self).received() + bytes@);
    }

    /// Records that the stream has ended: reads no longer wait for more bytes.
    pub fn end_of_stream(&mut self)
        ensures
            final(self).ended(),
            final(self).stream() == old(self).stream(),
            final(self).state() == old(self).state(),
            final(self).received() == old(self).received(),
    {
        self.eof = true;
    }

    fn consume(&mut self, n: usize)
        requires
            n <= old(self).received().len(),
        ensures
            final(self).received() == old(self).received().skip(n as int),
            final(self).same_but_received(old(self)),
    {
        let rest = slice_to_vec(slice_subrange(self.received.as_slice(), n, self.received.len()));
        self.received = rest;
    }

    /// Gives the result of a packet read and consumes its bytes.
    fn finish_packet(&mut self, p: Parsed<PacketOutcome>) -> (r: ReadStep<
        Result<ServerboundPacket, ReadError>,
    >)
        requires
            within(map_step(p, |o: PacketOutcome| outcome_view(o)), old(self).received().len()),
            !stops(map_step(p, |o: PacketOutcome| outcome_view(o)), PacketRead::Unsupported),
        ensures
            packet_answer(*old(self), *final(self), map_step(p, |o: PacketOutcome| outcome_view(o)), r),
    {
        match p {
            Parsed::NeedMore => ReadStep::NeedMore,
            Parsed::Done(o, n) => {
                self.consume(n);
                match o {
                    PacketOutcome::Packet(q) => ReadStep::Ready(Ok(q)),
                    PacketOutcome::Failed(e) => ReadStep::Ready(Err(e)),
                    PacketOutcome::Unsupported => vstd::pervasive::unreached(),
                }
            },
        }
    }

    /// Whether the server supports what the next packet turns out to be (or needs more
    /// bytes to tell); the server stops on a packet that it does not support.
    pub fn next_is_supported(&self) -> (b: bool)
        ensures
            b == !stops(
                spec_next(self.state(), self.received(), self.ended()),
                NextRead::Unsupported,
            ),
    {
        match parse_next(self.state, self.received.as_slice(), self.eof) {
            Parsed::Done(NextOutcome::Unsupported, _) => false,
            _ => true,
        }
    }

    /// Reads the next packet: a classic ping, or a packet of the current state; nothing when
    /// its reading fails or its identifier is not known.
    pub fn next(&mut self) -> (r: ReadStep<Option<ServerboundPacket>>)
        requires
            !stops(
                spec_next(old(self).state(), old(self).received(), old(self).ended()),
                NextRead::Unsupported,
            ),
        ensures
            final(self).same_but_received(old(self)),
            match spec_next(old(self).state(), old(self).received(), old(self).ended()) {
                Step::NeedMore => r is NeedMore && final(self).received() == old(self).received(),
                Step::Done(v, n) => r matches ReadStep::Ready(p) && v == NextRead::Produced(
                    option_view(p),
                ) && final(self).received() == old(self).received().skip(n as int),
            },
    {
        match parse_next(self.state, self.received.as_slice(), self.eof) {
            Parsed::NeedMore => ReadStep::NeedMore,
            Parsed::Done(o, n) => {
                self.consume(n);
                match o {
                    NextOutcome::Produced(p) => ReadStep::Ready(p),
                    NextOutcome::Unsupported => vstd::pervasive::unreached(),
                }
            },
        }
    }

    /// Whether the server supports the handshake body at the front of the received bytes
    /// (or needs more bytes to tell).
    pub fn handshake_is_supported(&self) -> (b: bool)
        ensures
            b == !stops(spec_handshake(self.received(), self.ended()), PacketRead::Unsupported),
    {
        match parse_handshake(self.received.as_slice(), self.eof) {
            Parsed::Done(PacketOutcome::Unsupported, _) => false,
            _ => true,
        }
    }

    /// Whether the server supports the login start body at the front of the received bytes
    /// (or needs more bytes to tell).
    pub fn login_start_is_supported(&self) -> (b: bool)
        ensures
            b == !stops(spec_login_start(self.received(), self.ended()), PacketRead::Unsupported),
    {
        match parse_login_start(self.received.as_slice(), self.eof) {
            Parsed::Done(PacketOutcome::Unsupported, _) => false,
            _ => true,
        }
    }

    /// Whether the server supports the classic ping body at the front of the received bytes
    /// (or needs more bytes to tell).
    pub fn classic_ping_is_supported(&self) -> (b: bool)
        ensures
            b == !stops(spec_classic_ping(self.received(), self.ended()), PacketRead::Unsupported),
    {
        match parse_classic_ping(self.received.as_slice(), self.eof) {
            Parsed::Done(PacketOutcome::Unsupported, _) => false,
            _ => true,
        }
    }

    /// Reads the body of a handshake packet.
    pub fn read_handshake_packet(&mut self) -> (r: ReadStep<Result<ServerboundPacket, ReadError>>)
        requires
            !stops(spec_handshake(old(self).received(), old(self).ended()), PacketRead::Unsupported),
        ensures
            packet_answer(
                *old(self),
                *final(self),
                spec_handshake(old(self).received(), old(self).ended()),
                r,
            ),
    {
        let p = parse_handshake(self.received.as_slice(), self.eof);
        self.finish_packet(p)
    }

    /// Reads the body of a login start packet.
    pub fn read_login_start_packet(&mut self) -> (r: ReadStep<
        Result<ServerboundPacket, ReadError>,
    >)
        requires
            !stops(
                spec_login_start(old(self).received(), old(self).ended()),
                PacketRead::Unsupported,
            ),
        ensures
            packet_answer(
                *old(self),
                *final(self),
                spec_login_start(old(self).received(), old(self).ended()),
                r,
            ),
    {
        let p = parse_login_start(self.received.as_slice(), self.eof);
        self.finish_packet(p)
    }

    /// Reads the body of an encryption response packet.
    pub fn read_encryption_response_packet(&mut self) -> (r: ReadStep<
        Result<ServerboundPacket, ReadError>,
    >)
        ensures
            packet_answer(
                *old(self),
                *final(self),
                spec_encryption_response(old(self).received(), old(self).ended()),
                r,
            ),
    {
        let p = parse_encryption_response(self.received.as_slice(), self.eof);
        self.finish_packet(p)
    }

    /// Reads the body of a ping packet.
    pub fn read_ping_packet(&mut self) -> (r: ReadStep<Result<ServerboundPacket, ReadError>>)
        ensures
            packet_answer(*old(self), *final(self), spec_ping(old(self).received(), old(self).ended()), r),
    {
        let p = parse_ping(self.received.as_slice(), self.eof);
        self.finish_packet(p)
    }

    /// Reads the body of a classic ping packet, after its first byte.
    pub fn read_classic_ping_packet(&mut self) -> (r: ReadStep<
        Result<ServerboundPacket, ReadError>,
    >)
        requires
            !stops(
                spec_classic_ping(old(self).received(), old(self).ended()),
                PacketRead::Unsupported,
            ),
        ensures
            packet_answer(
                *old(self),
                *final(self),
                spec_classic_ping(old(self).received(), old(self).ended()),
                r,
            ),
    {
        let p = parse_classic_ping(self.received.as_slice(), self.eof);
        self.finish_packet(p)
    }
}

/// The reader went from `before` to `after` answering `r` for the model step `p`: nothing
/// consumed when more bytes are needed, otherwise the result of `p` and its bytes consumed.
pub open spec fn packet_answer<R>(
    before: MinecraftPacketReader<R>,
    after: MinecraftPacketReader<R>,
    p: Step<PacketRead>,
    r: ReadStep<Result<ServerboundPacket, ReadError>>,
) -> bool {
    &&& after.same_but_received(&before)
    &&& match p {
        Step::NeedMore => r is NeedMore && after.received() == before.received(),
        Step::Done(v, n) => r matches ReadStep::Ready(x) && result_view(x) == v
            && after.received() == before.received().skip(n as int),
    }
}

// ---------------------------------------------------------------------------------------
// Reads that are complete do not depend on later bytes

proof fn lemma_handshake_state_extend(
    s: Seq<u8>,
    t: Seq<u8>,
    eof: bool,
    pv: u16,
    addr: Seq<char>,
    port: u16,
)
    requires
        spec_handshake_state(s, false, pv, addr, port) is Done,
    ensures
        spec_handshake_state(s + t, eof, pv, addr, port) == spec_handshake_state(
            s,
            false,
            pv,
            addr,
            port,
        ),
{
    lemma_varint_extend(s, t, eof, 8, 0xff);
}

proof fn lemma_handshake_port_extend(s: Seq<u8>, t: Seq<u8>, eof: bool, pv: u16, addr: Seq<char>)
    requires
        spec_handshake_port(s, false, pv, addr) is Done,
    ensures
        spec_handshake_port(s + t, eof, pv, addr) == spec_handshake_port(s, false, pv, addr),
{
    lemma_fixed_extend(s, t, eof);
    if let Step::Done(Ok(port), c) = spec_read_u16(s, false) {
        lemma_skip_extend(s, t, c as int);
        lemma_handshake_state_extend(s.skip(c as int), t, eof, pv, addr, port);
    }
}

proof fn lemma_handshake_address_extend(s: Seq<u8>, t: Seq<u8>, eof: bool, pv: u16)
    requires
        spec_handshake_address(s, false, pv) is Done,
    ensures
        spec_handshake_address(s + t, eof, pv) == spec_handshake_address(s, false, pv),
{
    lemma_utf_string_extend(s, t, eof, 1020);
    lemma_utf_string_within(s, false, 1020);
    if let Step::Done(StringRead::Text(addr), c) = spec_utf_string(s, false, 1020) {
        lemma_skip_extend(s, t, c as int);
        lemma_handshake_port_extend(s.skip(c as int), t, eof, pv, addr);
    }
}

/// A handshake that is complete on the received bytes reads the same whatever follows and
/// whether or not the stream has ended.
pub proof fn lemma_handshake_extend(s: Seq<u8>, t: Seq<u8>, eof: bool)
    requires
        spec_handshake(s, false) is Done,
    ensures
        spec_handshake(s + t, eof) == spec_handshake(s, false),
{
    lemma_varint_extend(s, t, eof, 16, 0xffff);
    lemma_varint_within(s, false, 16, 0xffff);
    if let Step::Done(Ok(pv), c) = spec_varint(s, false, 16, 0xffff) {
        lemma_skip_extend(s, t, c as int);
        lemma_handshake_address_extend(s.skip(c as int), t, eof, pv as u16);
    }
}

/// A login start packet that is complete on the received bytes reads the same whatever
/// follows.
pub proof fn lemma_login_start_extend(s: Seq<u8>, t: Seq<u8>, eof: bool)
    requires
        spec_login_start(s, false) is Done,
    ensures
        spec_login_start(s + t, eof) == spec_login_start(s, false),
{
    lemma_utf_string_extend(s, t, eof, 64);
}

proof fn lemma_encryption_token_len_extend(s: Seq<u8>, t: Seq<u8>, eof: bool, secret: Seq<u8>)
    requires
        spec_encryption_token_len(s, false, secret) is Done,
    ensures
        spec_encryption_token_len(s + t, eof, secret) == spec_encryption_token_len(
            s,
            false,
            secret,
        ),
{
    lemma_varint_extend(s, t, eof, usize::BITS as nat, usize::MAX as nat);
    lemma_varint_within(s, false, usize::BITS as nat, usize::MAX as nat);
    if let Step::Done(Ok(n), c) = spec_varint(s, false, usize::BITS as nat, usize::MAX as nat) {
        lemma_skip_extend(s, t, c as int);
        lemma_take_extend(s.skip(c as int), t, eof, n);
    }
}

proof fn lemma_encryption_secret_extend(s: Seq<u8>, t: Seq<u8>, eof: bool, n: nat)
    requires
        spec_encryption_secret(s, false, n) is Done,
    ensures
        spec_encryption_secret(s + t, eof, n) == spec_encryption_secret(s, false, n),
{
    lemma_take_extend(s, t, eof, n);
    lemma_take_within(s, false, n);
    if let Step::Done(secret, c) = spec_take(s, false, n) {
        lemma_skip_extend(s, t, c as int);
        lemma_encryption_token_len_extend(s.skip(c as int), t, eof, secret);
    }
}

/// An encryption response that is complete on the received bytes reads the same whatever
/// follows.
pub proof fn lemma_encryption_response_extend(s: Seq<u8>, t: Seq<u8>, eof: bool)
    requires
        spec_encryption_response(s, false) is Done,
    ensures
        spec_encryption_response(s + t, eof) == spec_encryption_response(s, false),
{
    lemma_varint_extend(s, t, eof, usize::BITS as nat, usize::MAX as nat);
    lemma_varint_within(s, false, usize::BITS as nat, usize::MAX as nat);
    if let Step::Done(Ok(n), c) = spec_varint(s, false, usize::BITS as nat, usize::MAX as nat) {
        lemma_skip_extend(s, t, c as int);
        lemma_encryption_secret_extend(s.skip(c as int), t, eof, n);
    }
}

/// A ping that is complete on the received bytes reads the same whatever follows.
pub proof fn lemma_ping_extend(s: Seq<u8>, t: Seq<u8>, eof: bool)
    requires
        spec_ping(s, false) is Done,
    ensures
        spec_ping(s + t, eof) == spec_ping(s, false),
{
    lemma_fixed_extend(s, t, eof);
}

proof fn lemma_classic_port_extend(s: Seq<u8>, t: Seq<u8>, eof: bool, pv: u8, host: Seq<char>)
    requires
        spec_classic_port(s, false, pv, host) is Done,
    ensures
        spec_classic_port(s + t, eof, pv, host) == spec_classic_port(s, false, pv, host),
{
    lemma_fixed_extend(s, t, eof);
}

proof fn lemma_classic_hostname_extend(s: Seq<u8>, t: Seq<u8>, eof: bool, pv: u8, len: nat)
    requires
        spec_classic_hostname(s, false, pv, len) is Done,
    ensures
        spec_classic_hostname(s + t, eof, pv, len) == spec_classic_hostname(s, false, pv, len),
{
    lemma_utf16_string_extend(s, t, eof, len);
    lemma_utf16_string_within(s, false, len);
    if let Step::Done(StringRead::Text(host), c) = spec_utf16_string(s, false, len) {
        lemma_skip_extend(s, t, c as int);
        lemma_classic_port_extend(s.skip(c as int), t, eof, pv, host);
    }
}

proof fn lemma_classic_hostname_len_extend(s: Seq<u8>, t: Seq<u8>, eof: bool, pv: u8)
    requires
        spec_classic_hostname_len(s, false, pv) is Done,
    ensures
        spec_classic_hostname_len(s + t, eof, pv) == spec_classic_hostname_len(s, false, pv),
{
    lemma_fixed_extend(s, t, eof);
    if let Step::Done(Ok(h), c) = spec_read_u16(s, false) {
        lemma_skip_extend(s, t, c as int);
        lemma_classic_hostname_extend(s.skip(c as int), t, eof, pv, (2 * swap16(h)) as nat);
    }
}

proof fn lemma_classic_version_extend(s: Seq<u8>, t: Seq<u8>, eof: bool)
    requires
        spec_classic_version(s, false) is Done,
    ensures
        spec_classic_version(s + t, eof) == spec_classic_version(s, false),
{
    lemma_fixed_extend(s, t, eof);
    if let Step::Done(Ok(pv), c) = spec_read_u8(s, false) {
        lemma_skip_extend(s, t, c as int);
        lemma_classic_hostname_len_extend(s.skip(c as int), t, eof, pv);
    }
}

proof fn lemma_classic_data_len_extend(s: Seq<u8>, t: Seq<u8>, eof: bool)
    requires
        spec_classic_data_len(s, false) is Done,
    ensures
        spec_classic_data_len(s + t, eof) == spec_classic_data_len(s, false),
{
    lemma_fixed_extend(s, t, eof);
    if let Step::Done(Ok(_), c) = spec_read_u16(s, false) {
        lemma_skip_extend(s, t, c as int);
        lemma_classic_version_extend(s.skip(c as int), t, eof);
    }
}

proof fn lemma_classic_host_str_extend(s: Seq<u8>, t: Seq<u8>, eof: bool)
    requires
        spec_classic_host_str(s, false) is Done,
    ensures
        spec_classic_host_str(s + t, eof) == spec_classic_host_str(s, false),
{
    lemma_utf16_string_extend(s, t, eof, 22);
    lemma_utf16_string_within(s, false, 22);
    if let Step::Done(StringRead::Text(_), c) = spec_utf16_string(s, false, 22) {
        lemma_skip_extend(s, t, c as int);
        if spec_classic_data_len(s.skip(c as int), false) is Done {
            lemma_classic_data_len_extend(s.skip(c as int), t, eof);
        }
    }
}

proof fn lemma_classic_host_len_extend(s: Seq<u8>, t: Seq<u8>, eof: bool)
    requires
        spec_classic_host_len(s, false) is Done,
    ensures
        spec_classic_host_len(s + t, eof) == spec_classic_host_len(s, false),
{
    lemma_fixed_extend(s, t, eof);
    if let Step::Done(Ok(h), c) = spec_read_u16(s, false) {
        lemma_skip_extend(s, t, c as int);
        if swap16(h) == 11 {
            lemma_classic_host_str_extend(s.skip(c as int), t, eof);
        }
    }
}

proof fn lemma_classic_msg_id_extend(s: Seq<u8>, t: Seq<u8>, eof: bool, payload: u8)
    requires
        spec_classic_msg_id(s, false, payload) is Done,
    ensures
        spec_classic_msg_id(s + t, eof, payload) == spec_classic_msg_id(s, false, payload),
{
    lemma_fixed_extend(s, t, eof);
    if let Step::Done(Ok(id), c) = spec_read_u8(s, false) {
        lemma_skip_extend(s, t, c as int);
        if payload == 1 && id == 0xFA {
            lemma_classic_host_len_extend(s.skip(c as int), t, eof);
        }
    }
}

/// A classic ping that is complete on the received bytes reads the same whatever follows.
pub proof fn lemma_classic_ping_extend(s: Seq<u8>, t: Seq<u8>, eof: bool)
    requires
        spec_classic_ping(s, false) is Done,
    ensures
        spec_classic_ping(s + t, eof) == spec_classic_ping(s, false),
{
    lemma_fixed_extend(s, t, eof);
    if let Step::Done(Ok(payload), c) = spec_read_u8(s, false) {
        lemma_skip_extend(s, t, c as int);
        lemma_classic_msg_id_extend(s.skip(c as int), t, eof, payload);
    }
}

/// Looking for the next packet ends in skipping the body of a packet of unknown identifier
/// before any state is chosen (a read that takes whatever has arrived).
pub open spec fn next_discards(state: ServerState, s: Seq<u8>, eof: bool) -> bool {
    if s.len() >= 1 {
        header_discards(state, s.skip(1), eof, s[0])
    } else if eof {
        header_discards(state, s, eof, 0)
    } else {
        false
    }
}

/// After the first byte `h`, the next packet ends in skipping an unknown body.
pub open spec fn header_discards(state: ServerState, s: Seq<u8>, eof: bool, h: u8) -> bool {
    if h == 0xFE {
        false
    } else if h >= 0x80 {
        match spec_varint(s, eof, 32, 0xffff_ffff) {
            Step::NeedMore => false,
            Step::Done(_, c) => packet_discards(state, s.skip(c as int), eof),
        }
    } else {
        packet_discards(state, s, eof)
    }
}

/// After the length, the packet's identifier is unknown before any state is chosen.
pub open spec fn packet_discards(state: ServerState, s: Seq<u8>, eof: bool) -> bool {
    &&& state == ServerState::Waiting
    &&& spec_varint(s, eof, 32, 0xffff_ffff) matches Step::Done(Ok(id), _) && id != 0
}

proof fn lemma_dispatch_extend(
    state: ServerState,
    id: Result<nat, ReadError>,
    s: Seq<u8>,
    t: Seq<u8>,
    eof: bool,
)
    requires
        spec_dispatch(state, id, s, false) is Done,
        state == ServerState::Waiting ==> !(id matches Ok(v) && v != 0),
    ensures
        spec_dispatch(state, id, s + t, eof) == spec_dispatch(state, id, s, false),
{
    match state {
        ServerState::Waiting => {
            if id == Ok::<nat, ReadError>(0) {
                lemma_handshake_extend(s, t, eof);
            }
        },
        ServerState::Login => {
            if id == Ok::<nat, ReadError>(0) {
                lemma_login_start_extend(s, t, eof);
            } else if id == Ok::<nat, ReadError>(1) {
                lemma_encryption_response_extend(s, t, eof);
            }
        },
        ServerState::Status => {
            if id == Ok::<nat, ReadError>(1) {
                lemma_ping_extend(s, t, eof);
            }
        },
        ServerState::Play => {},
    }
}

proof fn lemma_mc_packet_extend(state: ServerState, s: Seq<u8>, t: Seq<u8>, eof: bool)
    requires
        spec_mc_packet(state, s, false) is Done,
        !packet_discards(state, s, false),
    ensures
        spec_mc_packet(state, s + t, eof) == spec_mc_packet(state, s, false),
{
    lemma_varint_extend(s, t, eof, 32, 0xffff_ffff);
    lemma_varint_within(s, false, 32, 0xffff_ffff);
    if let Step::Done(id, c) = spec_varint(s, false, 32, 0xffff_ffff) {
        lemma_skip_extend(s, t, c as int);
        lemma_dispatch_extend(state, id, s.skip(c as int), t, eof);
    }
}

proof fn lemma_after_header_extend(state: ServerState, s: Seq<u8>, t: Seq<u8>, eof: bool, h: u8)
    requires
        spec_after_header(state, s, false, h) is Done,
        !header_discards(state, s, false, h),
    ensures
        spec_after_header(state, s + t, eof, h) == spec_after_header(state, s, false, h),
{
    if h == 0xFE {
        lemma_classic_ping_extend(s, t, eof);
    } else if h >= 0x80 {
        lemma_varint_extend(s, t, eof, 32, 0xffff_ffff);
        lemma_varint_within(s, false, 32, 0xffff_ffff);
        if let Step::Done(_, c) = spec_varint(s, false, 32, 0xffff_ffff) {
            lemma_skip_extend(s, t, c as int);
            lemma_mc_packet_extend(state, s.skip(c as int), t, eof);
        }
    } else {
        lemma_mc_packet_extend(state, s, t, eof);
    }
}

/// When the next packet is complete on the received bytes, receiving more bytes (or the end
/// of the stream) does not change what is read or how much is consumed; the one exception
/// is the skipping of an unknown packet before any state is chosen, which takes whatever
/// has arrived.
pub proof fn lemma_next_extend(state: ServerState, s: Seq<u8>, t: Seq<u8>, eof: bool)
    requires
        spec_next(state, s, false) is Done,
        !next_discards(state, s, false),
    ensures
        spec_next(state, s + t, eof) == spec_next(state, s, false),
{
    assert(s.len() >= 1);
    assert((s + t)[0] == s[0]);
    lemma_skip_extend(s, t, 1);
    lemma_after_header_extend(state, s.skip(1), t, eof, s[0]);
}

/// Skipping an unknown packet before any state is chosen gives nothing, however many bytes
/// have arrived.
pub proof fn lemma_discard_gives_nothing(s: Seq<u8>, eof: bool)
    ensures
        spec_discard(s, eof) matches Step::Done(v, _) ==> v == NextRead::Produced(None),
{
}

// ---------------------------------------------------------------------------------------
// Once the stream has ended, no read waits

proof fn lemma_handshake_total(s: Seq<u8>)
    ensures
        spec_handshake(s, true) is Done,
{
    lemma_primitives_total(s, 16, 0xffff, 1020);
    if let Step::Done(Ok(pv), c) = spec_varint(s, true, 16, 0xffff) {
        let s2 = s.skip(c as int);
        lemma_primitives_total(s2, 16, 0xffff, 1020);
        if let Step::Done(StringRead::Text(addr), c2) = spec_utf_string(s2, true, 1020) {
            let s3 = s2.skip(c2 as int);
            lemma_primitives_total(s3, 16, 0xffff, 0);
            if let Step::Done(Ok(port), c3) = spec_read_u16(s3, true) {
                lemma_primitives_total(s3.skip(c3 as int), 8, 0xff, 0);
            }
        }
    }
}

proof fn lemma_encryption_response_total(s: Seq<u8>)
    ensures
        spec_encryption_response(s, true) is Done,
{
    lemma_primitives_total(s, usize::BITS as nat, usize::MAX as nat, 0);
    if let Step::Done(Ok(n), c) = spec_varint(s, true, usize::BITS as nat, usize::MAX as nat) {
        let s2 = s.skip(c as int);
        lemma_primitives_total(s2, usize::BITS as nat, usize::MAX as nat, n);
        if let Step::Done(secret, c2) = spec_take(s2, true, n) {
            let s3 = s2.skip(c2 as int);
            lemma_primitives_total(s3, usize::BITS as nat, usize::MAX as nat, 0);
            if let Step::Done(Ok(n2), c3) = spec_varint(
                s3,
                true,
                usize::BITS as nat,
                usize::MAX as nat,
            ) {
                lemma_primitives_total(s3.skip(c3 as int), 0, 0, n2);
            }
        }
    }
}

proof fn lemma_classic_tail_total(s: Seq<u8>)
    ensures
        spec_classic_data_len(s, true) is Done,
{
    lemma_primitives_total(s, 0, 0, 0);
    if let Step::Done(Ok(_), c) = spec_read_u16(s, true) {
        let s2 = s.skip(c as int);
        lemma_primitives_total(s2, 0, 0, 0);
        if let Step::Done(Ok(pv), c2) = spec_read_u8(s2, true) {
            let s3 = s2.skip(c2 as int);
            lemma_primitives_total(s3, 0, 0, 0);
            if let Step::Done(Ok(h), c3) = spec_read_u16(s3, true) {
                let s4 = s3.skip(c3 as int);
                let len = (2 * swap16(h)) as nat;
                lemma_primitives_total(s4, 0, 0, len);
                if let Step::Done(StringRead::Text(host), c4) = spec_utf16_string(s4, true, len) {
                    lemma_primitives_total(s4.skip(c4 as int), 0, 0, 0);
                }
            }
        }
    }
}

proof fn lemma_classic_ping_total(s: Seq<u8>)
    ensures
        spec_classic_ping(s, true) is Done,
{
    lemma_primitives_total(s, 0, 0, 0);
    if let Step::Done(Ok(payload), c) = spec_read_u8(s, true) {
        let s2 = s.skip(c as int);
        lemma_primitives_total(s2, 0, 0, 0);
        if let Step::Done(Ok(id), c2) = spec_read_u8(s2, true) {
            let s3 = s2.skip(c2 as int);
            lemma_primitives_total(s3, 0, 0, 0);
            if let Step::Done(Ok(h), c3) = spec_read_u16(s3, true) {
                let s4 = s3.skip(c3 as int);
                lemma_primitives_total(s4, 0, 0, 22);
                if let Step::Done(StringRead::Text(_), c4) = spec_utf16_string(s4, true, 22) {
                    lemma_classic_tail_total(s4.skip(c4 as int));
                }
            }
        }
    }
}

proof fn lemma_mc_packet_total(state: ServerState, s: Seq<u8>)
    ensures
        spec_mc_packet(state, s, true) is Done,
{
    lemma_primitives_total(s, 32, 0xffff_ffff, 64);
    if let Step::Done(id, c) = spec_varint(s, true, 32, 0xffff_ffff) {
        let s2 = s.skip(c as int);
        lemma_handshake_total(s2);
        lemma_encryption_response_total(s2);
        lemma_primitives_total(s2, 0, 0, 64);
    }
}

/// Once the stream has ended, looking for the next packet never waits for more bytes.
pub proof fn lemma_next_total(state: ServerState, s: Seq<u8>)
    ensures
        spec_next(state, s, true) is Done,
{
    let (rest, h) = if s.len() >= 1 {
        (s.skip(1), s[0])
    } else {
        (s, 0u8)
    };
    lemma_classic_ping_total(rest);
    lemma_mc_packet_total(state, rest);
    lemma_primitives_total(rest, 32, 0xffff_ffff, 0);
    if let Step::Done(_, c) = spec_varint(rest, true, 32, 0xffff_ffff) {
        lemma_mc_packet_total(state, rest.skip(c as int));
    }
}

// ---------------------------------------------------------------------------------------
// How the next packet is found

/// After a packet identifier written as a varint, the body of the packet kind that the
/// identifier and the state select is read; a failed read gives nothing, a login plugin
/// response is unsupported.
pub proof fn lemma_mc_packet_dispatch(state: ServerState, id: u32, rest: Seq<u8>, eof: bool)
    ensures
        spec_mc_packet(state, leb128_bytes(id as nat) + rest, eof) == after(
            leb128_bytes(id as nat).len(),
            spec_dispatch(state, Ok(id as nat), rest, eof),
        ),
        state == ServerState::Waiting && id == 0 ==> spec_mc_packet(
            state,
            leb128_bytes(id as nat) + rest,
            eof,
        ) == after(1, next_of(spec_handshake(rest, eof))),
        state == ServerState::Login && id == 0 ==> spec_mc_packet(
            state,
            leb128_bytes(id as nat) + rest,
            eof,
        ) == after(1, next_of(spec_login_start(rest, eof))),
        state == ServerState::Login && id == 1 ==> spec_mc_packet(
            state,
            leb128_bytes(id as nat) + rest,
            eof,
        ) == after(1, next_of(spec_encryption_response(rest, eof))),
        state == ServerState::Login && id == 2 ==> spec_mc_packet(
            state,
            leb128_bytes(id as nat) + rest,
            eof,
        ) == Step::Done(NextRead::Unsupported, 1),
        state == ServerState::Status && id == 1 ==> spec_mc_packet(
            state,
            leb128_bytes(id as nat) + rest,
            eof,
        ) == after(1, next_of(spec_ping(rest, eof))),
{
    let b = leb128_bytes(id as nat);
    lemma_varint_roundtrip(id as nat, rest, eof, 32, 0xffff_ffff);
    assert((b + rest).skip(b.len() as int) =~= rest);
    if id < 128 {
        assert(b.len() == 1);
    }
}

/// A first byte 0xFE starts a classic ping, whatever the state: the next packet is the
/// classic ping read from the bytes after it, with a failed read giving nothing.
pub proof fn lemma_next_classic_ping(state: ServerState, rest: Seq<u8>, eof: bool)
    ensures
        spec_next(state, seq![0xFEu8] + rest, eof) == after(
            1,
            next_of(spec_classic_ping(rest, eof)),
        ),
{
    let s = seq![0xFEu8] + rest;
    assert(s.skip(1) =~= rest);
    assert(s[0] == 0xFE);
}

/// After a first byte with the high bit set (and not 0xFE), the rest of the length varint is
/// skipped and the packet identifier follows.
proof fn lemma_after_high_header(state: ServerState, t: Seq<u8>, eof: bool, h: u8, n: nat, rest: Seq<u8>)
    requires
        h >= 0x80,
        h != 0xFE,
        n <= 0xffff_ffff,
        t == leb128_bytes(n) + rest,
    ensures
        spec_after_header(state, t, eof, h) == after(
            leb128_bytes(n).len(),
            spec_mc_packet(state, rest, eof),
        ),
{
    lemma_varint_roundtrip(n, rest, eof, 32, 0xffff_ffff);
    assert(t.skip(leb128_bytes(n).len() as int) =~= rest);
}

proof fn lemma_next_first_byte(state: ServerState, s: Seq<u8>, eof: bool)
    requires
        s.len() >= 1,
    ensures
        spec_next(state, s, eof) == after(1, spec_after_header(state, s.skip(1), eof, s[0])),
{
}

proof fn lemma_after_low_header(state: ServerState, t: Seq<u8>, eof: bool, h: u8)
    requires
        h < 0x80,
    ensures
        spec_after_header(state, t, eof, h) == spec_mc_packet(state, t, eof),
{
}

/// A length prefix written as a varint, whose first byte is not 0xFE, is skipped whole
/// before the packet identifier, and its value is not used.
#[verifier::rlimit(100)]
#[verifier::spinoff_prover]
pub proof fn lemma_next_length_prefix(state: ServerState, len: nat, rest: Seq<u8>, eof: bool)
    requires
        len < 0x80_0000_0000,
        leb128_bytes(len)[0] != 0xFE,
    ensures
        spec_next(state, leb128_bytes(len) + rest, eof) == after(
            leb128_bytes(len).len(),
            spec_mc_packet(state, rest, eof),
        ),
{
    let b = leb128_bytes(len);
    let s = b + rest;
    lemma_leb128_first(len);
    lemma_next_first_byte(state, s, eof);
    let h = s[0];
    assert(h == b[0]);
    if len < 128 {
        assert(s.skip(1) =~= rest);
        lemma_after_low_header(state, rest, eof, h);
    } else {
        let tail = leb128_bytes(len / 128);
        assert(s.skip(1) =~= tail + rest);
        lemma_after_high_header(state, s.skip(1), eof, h, len / 128, rest);
    }
}

} // verus!
