//! Packet identifiers of the states of a connection.
use vstd::prelude::*;

verus! {

/// Serverbound packets that are valid before any state is chosen.
pub enum HandshakePacketIds {
    SetState,
}

/// Serverbound packets of the status state.
pub enum StatusPacketIds {
    StatusRequest,
    Ping,
}

/// Clientbound packets of the status state.
pub enum StatusPacketResponseIds {
    StatusResponse,
    Pong,
}

/// Serverbound packets of the login state.
pub enum LoginPacketIds {
    StartLogin,
    EncryptionResponse,
    LoginPluginResponse,
}

/// Clientbound packets of the login state.
pub enum LoginPacketResponseIds {
    Disconnect,
    EncryptionRequest,
    LoginSuccess,
}

} // verus!
