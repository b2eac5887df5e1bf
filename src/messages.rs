//! Inbound commands and outbound frames.

use vstd::prelude::*;
use crate::playback::PlaybackState;

verus! {

/// One decoded inbound frame.
pub enum Message {
    Join { room: String },
    Leave,
    Sync { state: PlaybackState },
    Chat { text: String },
    Ping,
    /// A message type this hub does not know; ignored.
    Unknown,
}

/// Why an inbound message was refused; the connection goes on.
#[derive(Clone, Copy, PartialEq, Eq, Debug, Structural)]
pub enum ProtocolError {
    NotConnected,
    NotJoined,
    NegativePosition,
    Malformed,
}

/// One outbound frame.
pub enum Frame {
    /// The state of the room just joined.
    RoomState { room: String, state: PlaybackState },
    /// A playback update, attributed to its sender.
    Sync { from: u64, from_name: String, state: PlaybackState },
    MemberJoined { room: String, client: u64, name: String },
    MemberLeft { room: String, client: u64 },
    Chat { from: u64, from_name: String, text: String },
    Pong,
    Error { error: ProtocolError },
}

impl Frame {
    /// A copy of this frame.
    pub fn duplicate(&self) -> (r: Frame)
        ensures
            r == *self,
    {
        match self {
            Frame::RoomState { room, state } => Frame::RoomState { room: room.clone(), state: *state },
            Frame::Sync { from, from_name, state } => Frame::Sync {
                from: *from,
                from_name: from_name.clone(),
                state: *state,
            },
            Frame::MemberJoined { room, client, name } => Frame::MemberJoined {
                room: room.clone(),
                client: *client,
                name: name.clone(),
            },
            Frame::MemberLeft { room, client } => Frame::MemberLeft {
                room: room.clone(),
                client: *client,
            },
            Frame::Chat { from, from_name, text } => Frame::Chat {
                from: *from,
                from_name: from_name.clone(),
                text: text.clone(),
            },
            Frame::Pong => Frame::Pong,
            Frame::Error { error } => Frame::Error { error: *error },
        }
    }
}

} // verus!
