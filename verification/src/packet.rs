//! Clientbound packets: building their bytes and framing them for the wire.
use vstd::prelude::*;
use vstd::utf8::encode_utf8;
use crate::chat::{chat_json, Chat};
use crate::external::{write_u8, write_varint_u16, write_varint_usize};
use crate::varint::{leb128_bytes, lemma_try_read_varint_one_byte, spec_try_read_varint};
use crate::parse::{lemma_varint_roundtrip, spec_utf_string, Step, StringRead};

verus! {

/// Clientbound packets of the status state.
#[allow(dead_code)]
enum StatusPacketResponse {
    StatusResponse,
    Pong { payload: i64 },
}

/// Clientbound packets of the login state.
#[allow(dead_code)]
enum LoginPacketResponse {
    Disconnect,
    EncryptionRequest,
    LoginSuccess,
}

impl LoginPacketResponse {
    /// The packet identifier: the position of the variant.
    fn id(&self) -> (id: u8)
        ensures
            id == match *self {
                LoginPacketResponse::Disconnect => 0u8,
                LoginPacketResponse::EncryptionRequest => 1u8,
                LoginPacketResponse::LoginSuccess => 2u8,
            },
    {
        match self {
            LoginPacketResponse::Disconnect => 0,
            LoginPacketResponse::EncryptionRequest => 1,
            LoginPacketResponse::LoginSuccess => 2,
        }
    }
}

/// Packets that the server sends.
pub enum ClientboundPacket {
    StatusResponse,
    Pong { payload: i64 },
    Disconnect,
    EncryptionRequest,
    LoginSuccess,
}

/// The identifier of a clientbound packet within its state.
pub open spec fn clientbound_id(p: ClientboundPacket) -> u16 {
    match p {
        ClientboundPacket::StatusResponse => 0,
        ClientboundPacket::Pong { .. } => 1,
        ClientboundPacket::Disconnect => 0,
        ClientboundPacket::EncryptionRequest => 1,
        ClientboundPacket::LoginSuccess => 2,
    }
}

impl ClientboundPacket {
    /// The identifier of the packet within its state.
    pub fn packet_id(&mut self) -> (id: u16)
        ensures
            id == clientbound_id(*old(self)),
            *final(self) == *old(self),
    {
        match self {
            ClientboundPacket::StatusResponse => 0,
            ClientboundPacket::Pong { .. } => 1,
            ClientboundPacket::Disconnect => 0,
            ClientboundPacket::EncryptionRequest => 1,
            ClientboundPacket::LoginSuccess => 2,
        }
    }
}

impl From<ClientboundPacket> for u16 {
    fn from(item: ClientboundPacket) -> (id: u16) {
        match item {
            ClientboundPacket::StatusResponse => 0,
            ClientboundPacket::Pong { .. } => 1,
            ClientboundPacket::Disconnect => 0,
            ClientboundPacket::EncryptionRequest => 1,
            ClientboundPacket::LoginSuccess => 2,
        }
    }
}

impl vstd::std_specs::convert::FromSpecImpl<ClientboundPacket> for u16 {
    open spec fn obeys_from_spec() -> bool {
        true
    }

    open spec fn from_spec(item: ClientboundPacket) -> u16 {
        clientbound_id(item)
    }
}

/// The bytes of a string field: its UTF-8 length as a varint, then its UTF-8 bytes.
pub open spec fn string_field(s: Seq<char>) -> Seq<u8> {
    leb128_bytes(encode_utf8(s).len()) + encode_utf8(s)
}

/// The body of a disconnect packet: its identifier, then the message's JSON as a string.
pub open spec fn disconnect_body(message: Seq<crate::chat::ChatComponentModel>) -> Seq<u8> {
    leb128_bytes(0) + string_field(chat_json(message))
}

/// A clientbound packet body: identifier and fields, without the length header.
pub struct MinecraftPacket {
    data: Vec<u8>,
}

impl View for MinecraftPacket {
    type V = Seq<u8>;

    closed spec fn view(&self) -> Seq<u8> {
        self.data@
    }
}

impl MinecraftPacket {
    /// Writes the packet into `writer` framed for the wire: its length as a varint, then
    /// its bytes.
    pub fn send(writer: &mut Vec<u8>, pkt: MinecraftPacket) -> (res: std::io::Result<()>)
        ensures
            res is Ok,
            final(writer)@ == old(writer)@ + leb128_bytes(pkt@.len()) + pkt@,
    {
        write_varint_usize(writer, pkt.data.len())?;
        let ghost mid = writer@;
        writer.extend_from_slice(pkt.data.as_slice());
        proof {
            assert(writer@ =~= mid + pkt@);
        }
        Ok(())
    }

    /// A packet with no bytes.
    fn new_raw_packet() -> (p: MinecraftPacket)
        ensures
            p@ == Seq::<u8>::empty(),
    {
        MinecraftPacket { data: Vec::new() }
    }

    /// A packet holding only the identifier of `ptype`, as a varint.
    fn new(ptype: ClientboundPacket) -> (res: std::io::Result<MinecraftPacket>)
        ensures
            res is Ok,
            res->Ok_0@ == leb128_bytes(clientbound_id(ptype) as nat),
            res->Ok_0@ == seq![clientbound_id(ptype) as u8],
    {
        proof {
            lemma_packet_id_one_byte(ptype);
        }
        let mut pkt = MinecraftPacket::new_raw_packet();
        let id: u16 = u16::from(ptype);
        write_varint_u16(&mut pkt.data, id)?;
        proof {
            assert(pkt.data@ =~= leb128_bytes(clientbound_id(ptype) as nat));
        }
        Ok(pkt)
    }

    /// A disconnect packet whose reason is `message`.
    pub fn new_disconnect_packet(message: &Chat) -> (res: std::io::Result<MinecraftPacket>)
        requires
            message@.len() <= usize::MAX,
        ensures
            res is Ok,
            res->Ok_0@ == disconnect_body(message@),
    {
        let text = message.to_string();
        MinecraftPacket::new(ClientboundPacket::Disconnect)?.append_string(text.as_str())
    }

    /// The packet with the string field `string` added at its end.
    fn append_string(self, string: &str) -> (res: std::io::Result<MinecraftPacket>)
        ensures
            res is Ok,
            res->Ok_0@ == self@ + string_field(string@),
    {
        let mut this = self;
        let ghost start = this.data@;
        let string_bytes = string.as_bytes();
        write_varint_usize(&mut this.data, string_bytes.len())?;
        let ghost mid = this.data@;
        this.data.extend_from_slice(string_bytes);
        proof {
            assert(this.data@ =~= mid + string_bytes@);
            assert(this.data@ =~= start + string_field(string@));
        }
        Ok(this)
    }
}

/// Sends packets into a byte sink.
pub struct MinecraftPacketWriter<T> {
    stream: T,
}

impl<T> MinecraftPacketWriter<T> {
    /// The sink that packets are written into.
    pub closed spec fn stream(&self) -> T {
        self.stream
    }

    /// A writer that sends into `stream`.
    pub fn new(stream: T) -> (w: MinecraftPacketWriter<T>)
        ensures
            w.stream() == stream,
    {
        MinecraftPacketWriter { stream }
    }

    /// The sink, with what has been written into it.
    pub fn get_ref(&self) -> (s: &T)
        ensures
            *s == self.stream(),
    {
        &self.stream
    }
}

impl MinecraftPacketWriter<Vec<u8>> {
    /// Sends a packet: its length (identifier byte plus data) as a varint, the identifier's
    /// low seven bits, then the data.
    fn send_packet(&mut self, packet_id: u8, data: &[u8]) -> (res: std::io::Result<()>)
        requires
            data@.len() < usize::MAX,
        ensures
            res is Ok,
            final(self).stream()@ == old(self).stream()@ + leb128_bytes(1 + data@.len()) + seq![
                (packet_id % 128) as u8,
            ] + data@,
    {
        let ghost start = self.stream@;
        let packet_len = 1 + data.len();
        write_varint_usize(&mut self.stream, packet_len)?;
        assert(packet_id & 0x7f == packet_id % 128) by (bit_vector);
        write_u8(&mut self.stream, packet_id & 0x7f)?;
        let ghost mid = self.stream@;
        self.stream.extend_from_slice(data);
        proof {
            assert(self.stream@ =~= mid + data@);
            assert(self.stream@ =~= start + leb128_bytes(1 + data@.len()) + seq![
                (packet_id % 128) as u8,
            ] + data@);
        }
        Ok(())
    }

    /// Sends a string field: its UTF-8 length as a varint, then its bytes; gives the number
    /// of bytes sent.
    fn send_str(&mut self, data: &str) -> (res: std::io::Result<usize>)
        requires
            leb128_bytes(encode_utf8(data@).len()).len() + encode_utf8(data@).len()
                <= usize::MAX,
        ensures
            res is Ok,
            res->Ok_0 == string_field(data@).len(),
            final(self).stream()@ == old(self).stream()@ + string_field(data@),
    {
        let ghost start = self.stream@;
        let str_bytes = data.as_bytes();
        let data_len = str_bytes.len();
        let size_header_size = write_varint_usize(&mut self.stream, data_len)?;
        let ghost mid = self.stream@;
        self.stream.extend_from_slice(str_bytes);
        proof {
            assert(self.stream@ =~= mid + str_bytes@);
            assert(self.stream@ =~= start + string_field(data@));
        }
        Ok(size_header_size + data_len)
    }

    /// Sends a disconnect packet (login identifier 0) whose data is the JSON of `message`.
    pub fn send_disconnect(&mut self, message: &Chat)
        requires
            message@.len() <= usize::MAX,
            encode_utf8(chat_json(message@)).len() < usize::MAX,
        ensures
            final(self).stream()@ == old(self).stream()@ + leb128_bytes(
                1 + encode_utf8(chat_json(message@)).len(),
            ) + seq![0u8] + encode_utf8(chat_json(message@)),
    {
        let msg_json: String = message.to_string();
        let _ = self.send_packet(LoginPacketResponse::Disconnect.id(), msg_json.as_str().as_bytes());
    }
}

/// A string field as the packets write it reads back, through the reader's string read,
/// as the same text, whatever follows, when its UTF-8 length is within the reader's limit.
pub proof fn lemma_string_field_roundtrip(text: Seq<char>, t: Seq<u8>, eof: bool, max: nat)
    requires
        encode_utf8(text).len() <= max,
        encode_utf8(text).len() <= usize::MAX,
    ensures
        spec_utf_string(string_field(text) + t, eof, max) == Step::Done(
            StringRead::Text(text),
            string_field(text).len(),
        ),
{
    broadcast use vstd::utf8::encode_utf8_valid_utf8, vstd::utf8::encode_utf8_decode_utf8;

    let bytes = encode_utf8(text);
    let n = bytes.len();
    let h = leb128_bytes(n);
    assert(string_field(text) + t =~= h + (bytes + t));
    lemma_varint_roundtrip(n, bytes + t, eof, usize::BITS as nat, usize::MAX as nat);
    assert((h + (bytes + t)).skip(h.len() as int) =~= bytes + t);
    assert((bytes + t).take(n as int) =~= bytes);
}

/// The length header that `send` writes reads back through `try_read_varint` when the
/// packet is shorter than 128 bytes.
pub proof fn lemma_send_header_readable(len: nat, rest: Seq<u8>)
    requires
        len < 128,
    ensures
        spec_try_read_varint(leb128_bytes(len) + rest) == Some(len as u64),
{
    assert(leb128_bytes(len) =~= seq![len as u8]);
    lemma_try_read_varint_one_byte(len as u8, rest);
}

/// The identifier of a clientbound packet is written as one byte, the identifier itself.
pub proof fn lemma_packet_id_one_byte(p: ClientboundPacket)
    ensures
        leb128_bytes(clientbound_id(p) as nat) == seq![clientbound_id(p) as u8],
{
    assert(leb128_bytes(clientbound_id(p) as nat) =~= seq![clientbound_id(p) as u8]);
}

/// The body of a disconnect packet is the byte 0, the UTF-8 length of the message's JSON as
/// a varint, then those UTF-8 bytes.
pub proof fn lemma_disconnect_body(message: Seq<crate::chat::ChatComponentModel>)
    ensures
        disconnect_body(message) == seq![0u8] + leb128_bytes(
            encode_utf8(chat_json(message)).len(),
        ) + encode_utf8(chat_json(message)),
{
    assert(leb128_bytes(0) =~= seq![0u8]);
    assert(disconnect_body(message) =~= seq![0u8] + leb128_bytes(
        encode_utf8(chat_json(message)).len(),
    ) + encode_utf8(chat_json(message)));
}

} // verus!
