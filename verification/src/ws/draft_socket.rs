//! One draft-room WebSocket connection as a state machine: the
//! connection loop reports what happened (a ping is due, the draft hub
//! broadcast something, the client sent something, a send failed) and
//! performs the action decided here.
use vstd::prelude::*;

verus! {

/// What the connection loop observed.
#[derive(Debug)]
pub enum SocketEvent {
    /// The keep-alive interval elapsed.
    PingDue,
    /// The draft hub broadcast a message for the session.
    Broadcast(String),
    /// The subscriber fell behind and this many messages were skipped.
    BroadcastLagged(u64),
    /// The session's broadcast channel closed.
    BroadcastClosed,
    /// The client pinged with this payload.
    ClientPing(Vec<u8>),
    /// The client answered a ping.
    ClientPong,
    /// The client closed the connection, or its stream ended.
    ClientClosed,
    /// The client sent a text or binary message.
    ClientMessage,
    /// Reading from the client failed.
    ClientError,
    /// The last send to the client failed.
    SendFailed,
}

/// A frame to send to the client.
#[derive(Debug)]
pub enum OutFrame {
    Ping,
    Pong(Vec<u8>),
    Text(String),
}

/// What the connection does next.
#[derive(Debug)]
pub enum SocketAction {
    Send(OutFrame),
    /// Nothing to send; keep waiting.
    Wait,
    /// End the connection.
    Disconnect,
}

/// The reaction to an event: keep-alive pings go out when due, hub
/// broadcasts are forwarded as text, client pings are answered with the
/// same payload; pongs, client messages and a lagging subscriber change
/// nothing; a closed channel, a closed or failing client and a failed
/// send end the connection.
pub fn socket_step(event: SocketEvent) -> (r: SocketAction)
    ensures
        match event {
            SocketEvent::PingDue => r matches SocketAction::Send(OutFrame::Ping),
            SocketEvent::Broadcast(text) => r matches SocketAction::Send(OutFrame::Text(t)) && t
                == text,
            SocketEvent::ClientPing(data) => r matches SocketAction::Send(OutFrame::Pong(d)) && d
                == data,
            SocketEvent::BroadcastLagged(_) | SocketEvent::ClientPong | SocketEvent::ClientMessage => r is Wait,
            SocketEvent::BroadcastClosed | SocketEvent::ClientClosed | SocketEvent::ClientError
            | SocketEvent::SendFailed => r is Disconnect,
        },
{
    match event {
        SocketEvent::PingDue => SocketAction::Send(OutFrame::Ping),
        SocketEvent::Broadcast(text) => SocketAction::Send(OutFrame::Text(text)),
        SocketEvent::ClientPing(data) => SocketAction::Send(OutFrame::Pong(data)),
        SocketEvent::BroadcastLagged(_) => SocketAction::Wait,
        SocketEvent::ClientPong => SocketAction::Wait,
        SocketEvent::ClientMessage => SocketAction::Wait,
        SocketEvent::BroadcastClosed => SocketAction::Disconnect,
        SocketEvent::ClientClosed => SocketAction::Disconnect,
        SocketEvent::ClientError => SocketAction::Disconnect,
        SocketEvent::SendFailed => SocketAction::Disconnect,
    }
}

} // verus!
