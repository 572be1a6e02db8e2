//! Minecraft protocol packets: chat messages, packet framing and a
//! stream-independent packet reader, with contracts checked by Verus.

pub mod byte_order;
pub mod varint;
pub mod external;
pub mod chat;
pub mod packet;
pub mod packet_ids;
pub mod errors;
pub mod parse;
pub mod reader;
pub mod roundtrip;
pub mod classic_roundtrip;

pub use byte_order::{htonl, htons};
pub use varint::try_read_varint;
pub use chat::{Chat, ChatColor, ChatComponent};
pub use packet::{ClientboundPacket, MinecraftPacket, MinecraftPacketWriter};
pub use packet_ids::{
    HandshakePacketIds, LoginPacketIds, LoginPacketResponseIds,
    StatusPacketIds, StatusPacketResponseIds,
};
pub use errors::{MinecraftStringError, ReadError};
pub use reader::{MinecraftPacketReader, ReadStep, ServerState, ServerboundPacket};
