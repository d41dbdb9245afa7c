use vstd::prelude::*;
use crate::fixed_header::{
    CONNECT_PACKET, DISCONNECT_PACKET, PINGREQ_PACKET, PUBACK_PACKET, SUBSCRIBE_PACKET,
    UNSUBSCRIBE_PACKET,
};
use crate::reason_codes::ReasonMode;

verus! {

/// Where a broker's connection handler stands.
#[derive(Clone, Copy, Debug, PartialEq, Eq, Structural)]
pub enum ServerPhase {
    AwaitingConnect,
    Connected,
    Closed,
}

/// Whether `t` is the first byte of a packet a client may send once
/// connected: PUBLISH (any flags), PUBACK, SUBSCRIBE, UNSUBSCRIBE, PINGREQ.
pub open spec fn client_packet(t: u8) -> bool {
    t / 16 == 3 || t == PUBACK_PACKET || t == SUBSCRIBE_PACKET || t == UNSUBSCRIBE_PACKET || t
        == PINGREQ_PACKET
}

/// The broker's handler on the first byte `t` of the next packet: the first
/// packet must be CONNECT; after it a second CONNECT, or a packet only a
/// server sends, is a `ProtocolError`; DISCONNECT ends the connection;
/// nothing is read once it is closed.
pub open spec fn server_step_spec(phase: ServerPhase, t: u8) -> Result<ServerPhase, ReasonMode> {
    match phase {
        ServerPhase::AwaitingConnect => if t == CONNECT_PACKET {
            Ok(ServerPhase::Connected)
        } else {
            Err(ReasonMode::ProtocolError)
        },
        ServerPhase::Connected => if t == DISCONNECT_PACKET {
            Ok(ServerPhase::Closed)
        } else if client_packet(t) {
            Ok(ServerPhase::Connected)
        } else {
            Err(ReasonMode::ProtocolError)
        },
        ServerPhase::Closed => Err(ReasonMode::ProtocolError),
    }
}

/// The broker's handler on the next packet's first byte.
pub fn server_step(phase: ServerPhase, packet_type: u8) -> (r: Result<ServerPhase, ReasonMode>)
    ensures
        r == server_step_spec(phase, packet_type),
{
    match phase {
        ServerPhase::AwaitingConnect => if packet_type == CONNECT_PACKET {
            Ok(ServerPhase::Connected)
        } else {
            Err(ReasonMode::ProtocolError)
        },
        ServerPhase::Connected => if packet_type == DISCONNECT_PACKET {
            Ok(ServerPhase::Closed)
        } else if packet_type / 16 == 3 || packet_type == PUBACK_PACKET || packet_type == SUBSCRIBE_PACKET
            || packet_type == UNSUBSCRIBE_PACKET || packet_type == PINGREQ_PACKET {
            Ok(ServerPhase::Connected)
        } else {
            Err(ReasonMode::ProtocolError)
        },
        ServerPhase::Closed => Err(ReasonMode::ProtocolError),
    }
}

/// The states of a client's connection.
#[derive(Clone, Copy, Debug, PartialEq, Eq, Structural)]
pub enum ClientState {
    Disconnected,
    Connecting,
    Connected,
    Disconnecting,
}

/// What happens to a client's connection.
#[derive(Clone, Copy, Debug, PartialEq, Eq, Structural)]
pub enum ClientEvent {
    /// The user asks to connect.
    ConnectRequested,
    /// A CONNACK arrives with this reason.
    ConnackReceived(ReasonMode),
    /// The CONNACK did not come within the connect timeout.
    ConnectTimedOut,
    /// The user asks to disconnect.
    DisconnectRequested,
    /// The writer has drained and DISCONNECT is sent.
    DisconnectSent,
    /// The stream failed or the peer closed it.
    StreamClosed,
}

/// What the runtime is to do after a transition.
#[derive(Clone, Copy, Debug, PartialEq, Eq, Structural)]
pub enum ClientAction {
    Nothing,
    /// Open the stream and send CONNECT.
    SendConnect,
    /// Resend every in-flight PUBLISH with DUP set.
    ReplayInflight,
    /// Report the failure to the user.
    Fail(ReasonMode),
    /// Drain the writer, then send DISCONNECT with `Success`.
    SendDisconnect,
    /// Close the stream.
    CloseStream,
}

/// The client's transitions. Events that do not apply to a state leave it
/// as it is.
pub open spec fn client_step_spec(s: ClientState, e: ClientEvent) -> (ClientState, ClientAction) {
    match (s, e) {
        (ClientState::Disconnected, ClientEvent::ConnectRequested) => (
            ClientState::Connecting,
            ClientAction::SendConnect,
        ),
        (ClientState::Connecting, ClientEvent::ConnackReceived(r)) => if r == ReasonMode::Success {
            (ClientState::Connected, ClientAction::ReplayInflight)
        } else {
            (ClientState::Disconnected, ClientAction::Fail(r))
        },
        (ClientState::Connecting, ClientEvent::ConnectTimedOut) => (
            ClientState::Disconnected,
            ClientAction::Fail(ReasonMode::UnspecifiedError),
        ),
        (ClientState::Connected, ClientEvent::DisconnectRequested) => (
            ClientState::Disconnecting,
            ClientAction::SendDisconnect,
        ),
        (ClientState::Disconnecting, ClientEvent::DisconnectSent) => (
            ClientState::Disconnected,
            ClientAction::CloseStream,
        ),
        (ClientState::Disconnected, ClientEvent::StreamClosed) => (
            ClientState::Disconnected,
            ClientAction::Nothing,
        ),
        (_, ClientEvent::StreamClosed) => (ClientState::Disconnected, ClientAction::CloseStream),
        _ => (s, ClientAction::Nothing),
    }
}

/// The client's next state and action on an event.
pub fn client_step(s: ClientState, e: ClientEvent) -> (r: (ClientState, ClientAction))
    ensures
        r == client_step_spec(s, e),
{
    match (s, e) {
        (ClientState::Disconnected, ClientEvent::ConnectRequested) => (
            ClientState::Connecting,
            ClientAction::SendConnect,
        ),
        (ClientState::Connecting, ClientEvent::ConnackReceived(r)) => if r == ReasonMode::Success {
            (ClientState::Connected, ClientAction::ReplayInflight)
        } else {
            (ClientState::Disconnected, ClientAction::Fail(r))
        },
        (ClientState::Connecting, ClientEvent::ConnectTimedOut) => (
            ClientState::Disconnected,
            ClientAction::Fail(ReasonMode::UnspecifiedError),
        ),
        (ClientState::Connected, ClientEvent::DisconnectRequested) => (
            ClientState::Disconnecting,
            ClientAction::SendDisconnect,
        ),
        (ClientState::Disconnecting, ClientEvent::DisconnectSent) => (
            ClientState::Disconnected,
            ClientAction::CloseStream,
        ),
        (ClientState::Disconnected, ClientEvent::StreamClosed) => (
            ClientState::Disconnected,
            ClientAction::Nothing,
        ),
        (_, ClientEvent::StreamClosed) => (ClientState::Disconnected, ClientAction::CloseStream),
        _ => (s, ClientAction::Nothing),
    }
}

} // verus!
