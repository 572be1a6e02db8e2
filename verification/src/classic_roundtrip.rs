//! What the reader gives back for a classic ping written the way an old client writes it.
use vstd::prelude::*;
use crate::byte_order::{lemma_htonl_involution, lemma_htons_involution, swap16, swap32};
use crate::errors::ReadError;
use crate::external::{decode_utf16, le_bytes_value, valid_utf16};
use crate::parse::{after, hwords, spec_read_u16, spec_read_u32, spec_take, Step};
use crate::reader::{
    lemma_next_classic_ping, spec_classic_data_len, spec_classic_host_len, spec_classic_host_str,
    spec_classic_hostname, spec_classic_hostname_len, spec_classic_msg_id, spec_classic_ping,
    spec_classic_port, spec_classic_version, spec_next, NextRead, PacketModel, PacketRead,
    ServerState,
};

verus! {

/// A 16-bit number written most significant byte first.
pub open spec fn be16(v: u16) -> Seq<u8> {
    seq![(v / 0x100) as u8, (v % 0x100) as u8]
}

/// A 32-bit number written most significant byte first.
pub open spec fn be32(v: u32) -> Seq<u8> {
    seq![
        (v / 0x1000000) as u8,
        ((v / 0x10000) % 0x100) as u8,
        ((v / 0x100) % 0x100) as u8,
        (v % 0x100) as u8,
    ]
}

/// The body of a classic ping after its first byte 0xFE, as an old client writes it: the
/// payload 1, the identifier 0xFA, the length 11 and the 22 bytes `header` of the text
/// `MC|PingHost`, the length of the rest, the protocol version, the host name's length in
/// 16-bit units and its bytes, and the port, every number most significant byte first.
pub open spec fn classic_ping_body(
    header: Seq<u8>,
    data_len: u16,
    pv: u8,
    host: Seq<u8>,
    port: u32,
) -> Seq<u8> {
    seq![1u8, 0xFAu8] + (be16(11) + (header + (be16(data_len) + (seq![pv] + (be16(
        (host.len() / 2) as u16,
    ) + (host + be32(port)))))))
}

/// A classic ping body followed by the bytes `t`.
pub open spec fn classic_ping_then(
    header: Seq<u8>,
    data_len: u16,
    pv: u8,
    host: Seq<u8>,
    port: u32,
    t: Seq<u8>,
) -> Seq<u8> {
    seq![1u8, 0xFAu8] + (be16(11) + (header + (be16(data_len) + (seq![pv] + (be16(
        (host.len() / 2) as u16,
    ) + (host + (be32(port) + t)))))))
}

/// A classic ping body followed by `t` is the body's bytes, then those of `t`.
pub proof fn lemma_classic_ping_then(
    header: Seq<u8>,
    data_len: u16,
    pv: u8,
    host: Seq<u8>,
    port: u32,
    t: Seq<u8>,
)
    ensures
        classic_ping_then(header, data_len, pv, host, port, t) == classic_ping_body(
            header,
            data_len,
            pv,
            host,
            port,
        ) + t,
{
    assert(classic_ping_then(header, data_len, pv, host, port, t) =~= classic_ping_body(
        header,
        data_len,
        pv,
        host,
        port,
    ) + t);
}

/// A 16-bit number written most significant byte first reads, low byte first, as the number
/// with its bytes exchanged.
proof fn lemma_read_be16(v: u16, r: Seq<u8>, eof: bool)
    ensures
        spec_read_u16(be16(v) + r, eof) == Step::Done(Ok::<u16, ReadError>(swap16(v)), 2),
        (be16(v) + r).skip(2) == r,
{
    let s = be16(v) + r;
    assert(s[0] == v / 0x100);
    assert(s[1] == v % 0x100);
    assert(s.skip(2) =~= r);
}

/// After the payload 1 and the identifier 0xFA, the classic ping goes on with the length
/// of its text.
proof fn lemma_classic_start(r: Seq<u8>, eof: bool)
    ensures
        spec_classic_ping(seq![1u8, 0xFAu8] + r, eof) == after(2, spec_classic_host_len(r, eof)),
{
    let s = seq![1u8, 0xFAu8] + r;
    assert(s.skip(1) =~= seq![0xFAu8] + r);
    assert((seq![0xFAu8] + r).skip(1) =~= r);
}

/// After the length 11 of its text, the classic ping goes on with the text.
proof fn lemma_classic_text_len(r: Seq<u8>, eof: bool)
    ensures
        spec_classic_host_len(be16(11) + r, eof) == after(2, spec_classic_host_str(r, eof)),
{
    lemma_read_be16(11, r, eof);
    lemma_htons_involution(11);
}

/// After the text `MC|PingHost`, the classic ping goes on with the length of the rest.
proof fn lemma_classic_text(header: Seq<u8>, r: Seq<u8>, eof: bool)
    requires
        header.len() == 22,
        valid_utf16(hwords(header)),
        decode_utf16(hwords(header)) == "MC|PingHost"@,
    ensures
        spec_classic_host_str(header + r, eof) == after(22, spec_classic_data_len(r, eof)),
{
    assert((header + r).take(22) =~= header);
    assert((header + r).skip(22) =~= r);
    assert(spec_take(header + r, eof, 22) == Step::Done(header, 22));
}

/// The length of the rest is skipped, and the classic ping goes on with the version.
proof fn lemma_classic_data_len(d: u16, r: Seq<u8>, eof: bool)
    ensures
        spec_classic_data_len(be16(d) + r, eof) == after(2, spec_classic_version(r, eof)),
{
    lemma_read_be16(d, r, eof);
}

/// The protocol version is read, and the classic ping goes on with the host name's length.
proof fn lemma_classic_version(pv: u8, r: Seq<u8>, eof: bool)
    ensures
        spec_classic_version(seq![pv] + r, eof) == after(1, spec_classic_hostname_len(r, eof, pv)),
{
    assert((seq![pv] + r).skip(1) =~= r);
}

/// The host name's length in units is read as twice as many bytes.
proof fn lemma_classic_hostname_len(units: u16, r: Seq<u8>, eof: bool, pv: u8)
    ensures
        spec_classic_hostname_len(be16(units) + r, eof, pv) == after(
            2,
            spec_classic_hostname(r, eof, pv, 2 * units as nat),
        ),
{
    lemma_read_be16(units, r, eof);
    lemma_htons_involution(units);
}

/// The host name is read from its bytes, and the classic ping goes on with the port.
proof fn lemma_classic_hostname(host: Seq<u8>, r: Seq<u8>, eof: bool, pv: u8)
    requires
        valid_utf16(hwords(host)),
    ensures
        spec_classic_hostname(host + r, eof, pv, host.len()) == after(
            host.len(),
            spec_classic_port(r, eof, pv, decode_utf16(hwords(host))),
        ),
{
    assert((host + r).take(host.len() as int) =~= host);
    assert((host + r).skip(host.len() as int) =~= r);
    assert(spec_take(host + r, eof, host.len()) == Step::Done(host, host.len()));
}

/// A port written most significant byte first reads back as itself.
proof fn lemma_classic_port(port: u32, t: Seq<u8>, eof: bool, pv: u8, host: Seq<char>)
    ensures
        spec_classic_port(be32(port) + t, eof, pv, host) == Step::Done(
            PacketRead::Packet(
                PacketModel::ClassicPing { protocol_version: pv, hostname: host, server_port: port },
            ),
            4,
        ),
{
    let s = be32(port) + t;
    let b = s.take(4);
    assert(b =~= be32(port));
    assert(b.drop_first().drop_first().drop_first().drop_first() =~= Seq::<u8>::empty());
    assert(le_bytes_value(b) == swap32(port) as nat) by {
        reveal_with_fuel(le_bytes_value, 5);
        assert(b.drop_first() =~= seq![b[1], b[2], b[3]]);
        assert(b.drop_first().drop_first() =~= seq![b[2], b[3]]);
        assert(b.drop_first().drop_first().drop_first() =~= seq![b[3]]);
    }
    lemma_htonl_involution(port);
}

/// The first part of a classic ping, up to its protocol version, is read through.
proof fn lemma_classic_head(header: Seq<u8>, data_len: u16, pv: u8, rest: Seq<u8>, eof: bool)
    requires
        header.len() == 22,
        valid_utf16(hwords(header)),
        decode_utf16(hwords(header)) == "MC|PingHost"@,
    ensures
        spec_classic_ping(
            seq![1u8, 0xFAu8] + (be16(11) + (header + (be16(data_len) + (seq![pv] + rest)))),
            eof,
        ) == after(29, spec_classic_hostname_len(rest, eof, pv)),
{
    let r4 = seq![pv] + rest;
    let r3 = be16(data_len) + r4;
    let r2 = header + r3;
    let r1 = be16(11) + r2;
    lemma_classic_start(r1, eof);
    lemma_classic_text_len(r2, eof);
    lemma_classic_text(header, r3, eof);
    lemma_classic_data_len(data_len, r4, eof);
    lemma_classic_version(pv, rest, eof);
}

/// The last part of a classic ping, from its host name's length, is read as the packet.
proof fn lemma_classic_tail(pv: u8, host: Seq<u8>, port: u32, t: Seq<u8>, eof: bool)
    requires
        host.len() % 2 == 0,
        host.len() / 2 <= 0xffff,
        valid_utf16(hwords(host)),
    ensures
        spec_classic_hostname_len(be16((host.len() / 2) as u16) + (host + (be32(port) + t)), eof, pv)
            == Step::Done(
            PacketRead::Packet(
                PacketModel::ClassicPing {
                    protocol_version: pv,
                    hostname: decode_utf16(hwords(host)),
                    server_port: port,
                },
            ),
            2 + host.len() + 4,
        ),
{
    let units = (host.len() / 2) as u16;
    lemma_classic_hostname_len(units, host + (be32(port) + t), eof, pv);
    assert(2 * units as nat == host.len());
    lemma_classic_hostname(host, be32(port) + t, eof, pv);
    lemma_classic_port(port, t, eof, pv, decode_utf16(hwords(host)));
}

/// A classic ping reads back as the protocol version, host name and port the old client
/// sent, whatever follows, when its 22 text bytes read as `MC|PingHost` and its host name's
/// bytes, of an even number that fits the length field, read as UTF-16.
#[verifier::rlimit(100)]
#[verifier::spinoff_prover]
pub proof fn lemma_classic_ping_roundtrip(
    header: Seq<u8>,
    data_len: u16,
    pv: u8,
    host: Seq<u8>,
    port: u32,
    t: Seq<u8>,
    eof: bool,
)
    requires
        header.len() == 22,
        valid_utf16(hwords(header)),
        decode_utf16(hwords(header)) == "MC|PingHost"@,
        host.len() % 2 == 0,
        host.len() / 2 <= 0xffff,
        valid_utf16(hwords(host)),
    ensures
        spec_classic_ping(classic_ping_then(header, data_len, pv, host, port, t), eof)
            == Step::Done(
            PacketRead::Packet(
                PacketModel::ClassicPing {
                    protocol_version: pv,
                    hostname: decode_utf16(hwords(host)),
                    server_port: port,
                },
            ),
            classic_ping_body(header, data_len, pv, host, port).len(),
        ),
{
    let rest = be16((host.len() / 2) as u16) + (host + (be32(port) + t));
    lemma_classic_head(header, data_len, pv, rest, eof);
    lemma_classic_tail(pv, host, port, t, eof);
}

/// In any state, a classic ping (first byte 0xFE) reads back as what the old client sent,
/// and the whole ping is consumed.
pub proof fn lemma_next_classic_ping_roundtrip(
    state: ServerState,
    header: Seq<u8>,
    data_len: u16,
    pv: u8,
    host: Seq<u8>,
    port: u32,
    t: Seq<u8>,
    eof: bool,
)
    requires
        header.len() == 22,
        valid_utf16(hwords(header)),
        decode_utf16(hwords(header)) == "MC|PingHost"@,
        host.len() % 2 == 0,
        host.len() / 2 <= 0xffff,
        valid_utf16(hwords(host)),
    ensures
        spec_next(
            state,
            seq![0xFEu8] + classic_ping_then(header, data_len, pv, host, port, t),
            eof,
        )
            == Step::Done(
            NextRead::Produced(
                Some(
                    PacketModel::ClassicPing {
                        protocol_version: pv,
                        hostname: decode_utf16(hwords(host)),
                        server_port: port,
                    },
                ),
            ),
            1 + classic_ping_body(header, data_len, pv, host, port).len(),
        ),
{
    lemma_classic_ping_roundtrip(header, data_len, pv, host, port, t, eof);
    lemma_next_classic_ping(state, classic_ping_then(header, data_len, pv, host, port, t), eof);
}

} // verus!
