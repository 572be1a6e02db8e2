//! What the reader gives back for packet bodies written the way a client writes them.
use vstd::prelude::*;
use vstd::utf8::{decode_utf8, encode_utf8, valid_utf8};
use crate::external::le_bytes_value;
use crate::varint::{leb128_bytes, lemma_leb128_len, lemma_pow128_widths};
use crate::packet::{lemma_string_field_roundtrip, string_field};
use crate::parse::{
    after, lemma_varint_roundtrip, spec_take, spec_utf_string, Step, StringRead,
};
use crate::reader::{
    lemma_mc_packet_dispatch, lemma_next_length_prefix, spec_encryption_response,
    spec_encryption_secret, spec_encryption_token_len, spec_handshake, spec_handshake_address,
    spec_handshake_port, spec_handshake_state, spec_login_start, spec_next, spec_ping, NextRead,
    PacketModel, PacketRead, ServerState,
};

verus! {

/// 256 to the power `k`.
pub open spec fn pow256(k: nat) -> nat
    decreases k,
{
    if k == 0 {
        1
    } else {
        256 * pow256((k - 1) as nat)
    }
}

/// The `k` lowest base-256 digits of `u`, least significant first: `to_le_bytes`.
pub open spec fn le_digits(u: nat, k: nat) -> Seq<u8>
    decreases k,
{
    if k == 0 {
        seq![]
    } else {
        seq![(u % 256) as u8] + le_digits(u / 256, (k - 1) as nat)
    }
}

/// The bytes of a 64-bit two's complement number, least significant first, as a client
/// writes them with `to_le_bytes`.
pub open spec fn i64_le_bytes(x: i64) -> Seq<u8> {
    le_digits((x as u64) as nat, 8)
}

/// The body of a handshake as a client writes it: the protocol version as a varint, the
/// address as a string field, the port with its low byte first, and the number of the
/// requested state as a varint.
pub open spec fn handshake_body(pv: u16, addr: Seq<char>, port: u16, next: nat) -> Seq<u8> {
    leb128_bytes(pv as nat) + string_field(addr) + seq![(port % 256) as u8, (port / 256) as u8]
        + leb128_bytes(next)
}

/// The body of an encryption response as a client writes it: each of the shared secret and
/// the verify token as its length (varint) and its bytes.
pub open spec fn encryption_response_body(secret: Seq<u8>, token: Seq<u8>) -> Seq<u8> {
    leb128_bytes(secret.len()) + secret + leb128_bytes(token.len()) + token
}

/// `k` base-256 digits hold every number below 256 to the power `k`, and read back as it.
pub proof fn lemma_le_digits_value(u: nat, k: nat)
    requires
        u < pow256(k),
    ensures
        le_digits(u, k).len() == k,
        le_bytes_value(le_digits(u, k)) == u,
    decreases k,
{
    if k > 0 {
        let p = pow256((k - 1) as nat);
        assert(u / 256 < p) by (nonlinear_arith)
            requires
                u < 256 * p,
        ;
        lemma_le_digits_value(u / 256, (k - 1) as nat);
        let d = le_digits(u, k);
        assert(d.drop_first() =~= le_digits(u / 256, (k - 1) as nat));
        assert(u == u % 256 + 256 * (u / 256));
    }
}

/// A ping's payload reads back as the number the client sent, whatever its sign and
/// whatever follows, from its eight bytes least significant first.
pub proof fn lemma_ping_roundtrip(x: i64, t: Seq<u8>, eof: bool)
    ensures
        i64_le_bytes(x).len() == 8,
        spec_ping(i64_le_bytes(x) + t, eof) == Step::Done(
            PacketRead::Packet(PacketModel::Ping { payload: x }),
            8,
        ),
{
    let u: u64 = x as u64;
    assert(pow256(8) == 0x1_0000_0000_0000_0000) by {
        reveal_with_fuel(pow256, 9);
    }
    lemma_le_digits_value(u as nat, 8);
    let b = i64_le_bytes(x);
    assert((b + t).take(8) =~= b);
    assert((u as i64) == x) by (bit_vector)
        requires
            u == x as u64,
    ;
}

/// A handshake reads back as the protocol version, address and port the client sent, with
/// the state it asked for: 1 is the status state, 2 the login state, and any other number
/// is a request that the server does not support. The address must fit the reader's limit
/// of 1020 bytes.
#[verifier::rlimit(100)]
#[verifier::spinoff_prover]
pub proof fn lemma_handshake_roundtrip(
    pv: u16,
    addr: Seq<char>,
    port: u16,
    next: nat,
    t: Seq<u8>,
    eof: bool,
)
    requires
        encode_utf8(addr).len() <= 1020,
        next <= 0xff,
    ensures
        next == 1 ==> spec_handshake(handshake_body(pv, addr, port, next) + t, eof)
            == Step::Done(
            PacketRead::Packet(
                PacketModel::SetState {
                    protocol_version: pv,
                    server_address: addr,
                    server_port: port,
                    next_state: ServerState::Status,
                },
            ),
            handshake_body(pv, addr, port, next).len(),
        ),
        next == 2 ==> spec_handshake(handshake_body(pv, addr, port, next) + t, eof)
            == Step::Done(
            PacketRead::Packet(
                PacketModel::SetState {
                    protocol_version: pv,
                    server_address: addr,
                    server_port: port,
                    next_state: ServerState::Login,
                },
            ),
            handshake_body(pv, addr, port, next).len(),
        ),
        next != 1 && next != 2 ==> spec_handshake(handshake_body(pv, addr, port, next) + t, eof)
            == Step::Done(PacketRead::Unsupported, handshake_body(pv, addr, port, next).len()),
{
    let p = seq![(port % 256) as u8, (port / 256) as u8];
    let n = leb128_bytes(next);
    let rest = string_field(addr) + (p + (n + t));
    assert(handshake_body(pv, addr, port, next) + t =~= leb128_bytes(pv as nat) + rest);
    lemma_version_step(pv, rest, eof);
    lemma_address_step(addr, p + (n + t), eof, pv);
    lemma_port_step(port, n + t, eof, pv, addr);
    lemma_state_step(next, t, eof, pv, addr, port);
}

/// After the protocol version, the handshake goes on with the address.
proof fn lemma_version_step(pv: u16, rest: Seq<u8>, eof: bool)
    ensures
        spec_handshake(leb128_bytes(pv as nat) + rest, eof) == after(
            leb128_bytes(pv as nat).len(),
            spec_handshake_address(rest, eof, pv),
        ),
{
    lemma_varint_roundtrip(pv as nat, rest, eof, 16, 0xffff);
    assert((leb128_bytes(pv as nat) + rest).skip(leb128_bytes(pv as nat).len() as int) =~= rest);
}

/// After the address, the handshake goes on with the port.
proof fn lemma_address_step(addr: Seq<char>, rest: Seq<u8>, eof: bool, pv: u16)
    requires
        encode_utf8(addr).len() <= 1020,
    ensures
        spec_handshake_address(string_field(addr) + rest, eof, pv) == after(
            string_field(addr).len(),
            spec_handshake_port(rest, eof, pv, addr),
        ),
{
    lemma_string_field_roundtrip(addr, rest, eof, 1020);
    assert((string_field(addr) + rest).skip(string_field(addr).len() as int) =~= rest);
}

/// The port, low byte first, reads back; then the handshake goes on with the state.
proof fn lemma_port_step(port: u16, rest: Seq<u8>, eof: bool, pv: u16, addr: Seq<char>)
    ensures
        spec_handshake_port(seq![(port % 256) as u8, (port / 256) as u8] + rest, eof, pv, addr)
            == after(2, spec_handshake_state(rest, eof, pv, addr, port)),
{
    let s = seq![(port % 256) as u8, (port / 256) as u8] + rest;
    assert(s[0] + 0x100 * s[1] == port);
    assert(s.skip(2) =~= rest);
}

/// The requested state reads back: 1 is the status state, 2 the login state, and any
/// other number is not supported.
proof fn lemma_state_step(next: nat, t: Seq<u8>, eof: bool, pv: u16, addr: Seq<char>, port: u16)
    requires
        next <= 0xff,
    ensures
        next == 1 ==> spec_handshake_state(leb128_bytes(next) + t, eof, pv, addr, port)
            == Step::Done(
            PacketRead::Packet(
                PacketModel::SetState {
                    protocol_version: pv,
                    server_address: addr,
                    server_port: port,
                    next_state: ServerState::Status,
                },
            ),
            leb128_bytes(next).len(),
        ),
        next == 2 ==> spec_handshake_state(leb128_bytes(next) + t, eof, pv, addr, port)
            == Step::Done(
            PacketRead::Packet(
                PacketModel::SetState {
                    protocol_version: pv,
                    server_address: addr,
                    server_port: port,
                    next_state: ServerState::Login,
                },
            ),
            leb128_bytes(next).len(),
        ),
        next != 1 && next != 2 ==> spec_handshake_state(leb128_bytes(next) + t, eof, pv, addr, port)
            == Step::Done(PacketRead::Unsupported, leb128_bytes(next).len()),
{
    lemma_varint_roundtrip(next, t, eof, 8, 0xff);
}

/// A string field longer than the limit is cut: only the first `max` bytes of its text are
/// read, and what is left of the text stays unread.
pub proof fn lemma_string_field_cut(b: Seq<u8>, t: Seq<u8>, eof: bool, max: nat)
    requires
        max < b.len(),
        b.len() <= usize::MAX,
    ensures
        spec_utf_string(leb128_bytes(b.len()) + b + t, eof, max) == Step::Done(
            if valid_utf8(b.take(max as int)) {
                StringRead::Text(decode_utf8(b.take(max as int)))
            } else {
                StringRead::Utf8Invalid
            },
            leb128_bytes(b.len()).len() + max,
        ),
{
    let h = leb128_bytes(b.len());
    assert(h + b + t =~= h + (b + t));
    lemma_varint_roundtrip(b.len(), b + t, eof, usize::BITS as nat, usize::MAX as nat);
    assert((h + (b + t)).skip(h.len() as int) =~= b + t);
    assert((b + t).take(max as int) =~= b.take(max as int));
}

/// A login start reads back as the user name the client sent, whatever follows, when its
/// UTF-8 form is within the reader's limit of 64 bytes.
pub proof fn lemma_login_start_roundtrip(name: Seq<char>, t: Seq<u8>, eof: bool)
    requires
        encode_utf8(name).len() <= 64,
    ensures
        spec_login_start(string_field(name) + t, eof) == Step::Done(
            PacketRead::Packet(PacketModel::StartLogin { username: name }),
            string_field(name).len(),
        ),
{
    lemma_string_field_roundtrip(name, t, eof, 64);
}

/// An encryption response reads back as the shared secret and verify token the client sent,
/// of any lengths that a `usize` holds, whatever follows.
#[verifier::spinoff_prover]
pub proof fn lemma_encryption_response_roundtrip(
    secret: Seq<u8>,
    token: Seq<u8>,
    t: Seq<u8>,
    eof: bool,
)
    requires
        secret.len() <= usize::MAX,
        token.len() <= usize::MAX,
    ensures
        spec_encryption_response(encryption_response_body(secret, token) + t, eof) == Step::Done(
            PacketRead::Packet(
                PacketModel::EncryptionResponse { shared_secret: secret, verify_token: token },
            ),
            encryption_response_body(secret, token).len(),
        ),
{
    let lt = leb128_bytes(token.len());
    let rest = lt + token + t;
    assert(encryption_response_body(secret, token) + t =~= leb128_bytes(secret.len()) + (secret
        + rest));
    lemma_response_step(secret.len(), secret + rest, eof);
    lemma_secret_step(secret, rest, eof);
    assert(lt + token + t =~= rest);
    lemma_token_roundtrip(secret, token, t, eof);
}

/// After the secret's length, the encryption response goes on with the secret.
proof fn lemma_response_step(n: nat, rest: Seq<u8>, eof: bool)
    requires
        n <= usize::MAX,
    ensures
        spec_encryption_response(leb128_bytes(n) + rest, eof) == after(
            leb128_bytes(n).len(),
            spec_encryption_secret(rest, eof, n),
        ),
{
    lemma_varint_roundtrip(n, rest, eof, usize::BITS as nat, usize::MAX as nat);
    assert((leb128_bytes(n) + rest).skip(leb128_bytes(n).len() as int) =~= rest);
}

/// After the secret, the encryption response goes on with the token's length.
proof fn lemma_secret_step(secret: Seq<u8>, rest: Seq<u8>, eof: bool)
    ensures
        spec_encryption_secret(secret + rest, eof, secret.len()) == after(
            secret.len(),
            spec_encryption_token_len(rest, eof, secret),
        ),
{
    lemma_take_prefix(secret, rest, eof);
}

/// Reading `b.len()` bytes from `b` followed by anything gives `b`, and leaves what follows.
proof fn lemma_take_prefix(b: Seq<u8>, t: Seq<u8>, eof: bool)
    ensures
        spec_take(b + t, eof, b.len()) == Step::Done(b, b.len()),
        (b + t).skip(b.len() as int) == t,
{
    assert((b + t).take(b.len() as int) =~= b);
    assert((b + t).skip(b.len() as int) =~= t);
}

/// The verify token of an encryption response reads back after the secret.
proof fn lemma_token_roundtrip(secret: Seq<u8>, token: Seq<u8>, t: Seq<u8>, eof: bool)
    requires
        token.len() <= usize::MAX,
    ensures
        spec_encryption_token_len(leb128_bytes(token.len()) + token + t, eof, secret)
            == Step::Done(
            PacketRead::Packet(
                PacketModel::EncryptionResponse { shared_secret: secret, verify_token: token },
            ),
            leb128_bytes(token.len()).len() + token.len(),
        ),
{
    let lt = leb128_bytes(token.len());
    let s3 = token + t;
    assert(lt + token + t =~= lt + s3);
    lemma_varint_roundtrip(token.len(), s3, eof, usize::BITS as nat, usize::MAX as nat);
    lemma_take_prefix(lt, s3, eof);
    lemma_take_prefix(token, t, eof);
}

/// A packet as a client frames it: its length as a varint, then its identifier as a varint
/// and its body.
pub open spec fn framed(id: nat, body: Seq<u8>) -> Seq<u8> {
    leb128_bytes(leb128_bytes(id).len() + body.len()) + (leb128_bytes(id) + body)
}

/// A framed packet followed by the bytes `t`.
pub open spec fn framed_then(id: nat, body: Seq<u8>, t: Seq<u8>) -> Seq<u8> {
    leb128_bytes(leb128_bytes(id).len() + body.len()) + (leb128_bytes(id) + (body + t))
}

/// A framed packet followed by `t` is the frame's bytes, then those of `t`.
pub proof fn lemma_framed_then(id: nat, body: Seq<u8>, t: Seq<u8>)
    ensures
        framed_then(id, body, t) == framed(id, body) + t,
{
    assert(framed_then(id, body, t) =~= framed(id, body) + t);
}

/// In the status state, a framed ping (identifier 1) is read as the ping with the payload
/// the client sent, and the whole frame is consumed.
pub proof fn lemma_next_ping(x: i64, t: Seq<u8>, eof: bool)
    ensures
        spec_next(ServerState::Status, framed_then(1, i64_le_bytes(x), t), eof) == Step::Done(
            NextRead::Produced(Some(PacketModel::Ping { payload: x })),
            framed(1, i64_le_bytes(x)).len(),
        ),
{
    lemma_ping_roundtrip(x, t, eof);
    lemma_next_length_prefix(
        ServerState::Status,
        leb128_bytes(1).len() + i64_le_bytes(x).len(),
        leb128_bytes(1) + (i64_le_bytes(x) + t),
        eof,
    );
    lemma_mc_packet_dispatch(ServerState::Status, 1, i64_le_bytes(x) + t, eof);
}

/// In the login state, a framed login start (identifier 0) is read as the user name the
/// client sent, when its UTF-8 form is within 64 bytes, and the whole frame is consumed.
pub proof fn lemma_next_login_start(name: Seq<char>, t: Seq<u8>, eof: bool)
    requires
        encode_utf8(name).len() <= 64,
    ensures
        spec_next(ServerState::Login, framed_then(0, string_field(name), t), eof) == Step::Done(
            NextRead::Produced(Some(PacketModel::StartLogin { username: name })),
            framed(0, string_field(name)).len(),
        ),
{
    lemma_login_start_roundtrip(name, t, eof);
    lemma_next_length_prefix(
        ServerState::Login,
        leb128_bytes(0).len() + string_field(name).len(),
        leb128_bytes(0) + (string_field(name) + t),
        eof,
    );
    lemma_mc_packet_dispatch(ServerState::Login, 0, string_field(name) + t, eof);
}

/// In the login state, a framed encryption response (identifier 1) is read as the secret
/// and token the client sent, and the whole frame is consumed, when their lengths fit a
/// `usize`, the frame's length fits the reader's length varint, and that length does not
/// begin with the byte 0xFE, which starts a classic ping.
#[verifier::rlimit(100)]
#[verifier::spinoff_prover]
pub proof fn lemma_next_encryption_response(
    secret: Seq<u8>,
    token: Seq<u8>,
    t: Seq<u8>,
    eof: bool,
)
    requires
        secret.len() <= usize::MAX,
        token.len() <= usize::MAX,
        1 + encryption_response_body(secret, token).len() < 0x80_0000_0000,
        leb128_bytes(1 + encryption_response_body(secret, token).len())[0] != 0xFE,
    ensures
        spec_next(ServerState::Login, framed_then(1, encryption_response_body(secret, token), t), eof)
            == Step::Done(
            NextRead::Produced(
                Some(
                    PacketModel::EncryptionResponse { shared_secret: secret, verify_token: token },
                ),
            ),
            framed(1, encryption_response_body(secret, token)).len(),
        ),
{
    let body = encryption_response_body(secret, token);
    lemma_encryption_response_roundtrip(secret, token, t, eof);
    lemma_next_length_prefix(
        ServerState::Login,
        leb128_bytes(1).len() + body.len(),
        leb128_bytes(1) + (body + t),
        eof,
    );
    lemma_mc_packet_dispatch(ServerState::Login, 1, body + t, eof);
}

/// Before any state is chosen, a framed handshake (identifier 0) is read as the protocol
/// version, address and port the client sent, with the status state for 1 and the login
/// state for 2, and the whole frame is consumed, when the frame's length does not begin
/// with the byte 0xFE, which starts a classic ping.
#[verifier::rlimit(100)]
#[verifier::spinoff_prover]
pub proof fn lemma_next_handshake(
    pv: u16,
    addr: Seq<char>,
    port: u16,
    next: nat,
    t: Seq<u8>,
    eof: bool,
)
    requires
        encode_utf8(addr).len() <= 1020,
        next == 1 || next == 2,
        leb128_bytes(1 + handshake_body(pv, addr, port, next).len())[0] != 0xFE,
    ensures
        spec_next(ServerState::Waiting, framed_then(0, handshake_body(pv, addr, port, next), t), eof)
            == Step::Done(
            NextRead::Produced(
                Some(
                    PacketModel::SetState {
                        protocol_version: pv,
                        server_address: addr,
                        server_port: port,
                        next_state: if next == 1 {
                            ServerState::Status
                        } else {
                            ServerState::Login
                        },
                    },
                ),
            ),
            framed(0, handshake_body(pv, addr, port, next)).len(),
        ),
{
    let body = handshake_body(pv, addr, port, next);
    lemma_pow128_widths();
    lemma_leb128_len(pv as nat, 3);
    lemma_leb128_len(encode_utf8(addr).len(), 2);
    lemma_leb128_len(next, 2);
    assert(body.len() < 2000);
    lemma_handshake_roundtrip(pv, addr, port, next, t, eof);
    lemma_next_length_prefix(
        ServerState::Waiting,
        leb128_bytes(0).len() + body.len(),
        leb128_bytes(0) + (body + t),
        eof,
    );
    lemma_mc_packet_dispatch(ServerState::Waiting, 0, body + t, eof);
}

} // verus!
